//! Operations over the directory structure of a repository: listing a
//! directory, removing entries and whole subtrees, and destroying a
//! repository at its location.

use vstd::prelude::*;
use crate::bridge::{has_repo, lemma_repo_at, lemma_update_repo, repo_idx_of, Bridge};
use crate::error::BridgeError;
use crate::file_ops::spec_metadata_of;
use crate::paths::{
    child_name, is_direct_child, path_is_rooted, spec_child_base, spec_direct_child,
    spec_path_rooted,
};
use crate::repo_ops::resolve_repo_spec;
use crate::store::{
    entry_idx, entry_of, has_entry, lemma_entry_at, lemma_remove_entry, paths_unique, Entry,
};
use crate::values::{DirEntry, FileKind, Timestamp};

verus! {

/// Whether a path lies within a directory: the directory itself, or any
/// descendant of it.
pub open spec fn spec_within(dir: Seq<char>, p: Seq<char>) -> bool {
    let base = spec_child_base(dir);
    p == dir || (p.len() > base.len() && p.subrange(0, base.len() as int) == base)
}

/// Checks whether a path lies within a directory.
pub fn is_within(dir: &str, p: &str) -> (r: bool)
    requires
        spec_path_rooted(dir@),
    ensures
        r == spec_within(dir@, p@),
{
    let dir_len = dir.unicode_len();
    let p_len = p.unicode_len();
    let is_root = dir_len == 1;
    proof {
        if is_root {
            assert(dir@ =~= seq!['/']);
        } else {
            assert(dir@ != seq!['/']);
        }
    }
    // equality with the directory itself
    if p_len == dir_len {
        let eq = crate::values::str_eq(dir, p);
        if eq {
            return true;
        }
    }
    if p_len <= dir_len {
        proof {
            assert(!spec_within(dir@, p@));
        }
        return false;
    }
    let base_len = if is_root {
        dir_len
    } else {
        dir_len + 1
    };
    if p_len <= base_len {
        proof {
            assert(p@ != dir@);
            assert(!spec_within(dir@, p@));
        }
        return false;
    }
    let mut i: usize = 0;
    while i < dir_len
        invariant
            0 <= i <= dir_len,
            dir_len == dir@.len(),
            p_len == p@.len(),
            dir_len < p_len,
            forall|j: int| 0 <= j < i ==> p@[j] == dir@[j],
        decreases dir_len - i,
    {
        if p.get_char(i) != dir.get_char(i) {
            proof {
                let base = spec_child_base(dir@);
                assert(base[i as int] == dir@[i as int]);
                assert(p@ != dir@);
                assert(p@.subrange(0, base.len() as int) != base) by {
                    assert(p@.subrange(0, base.len() as int)[i as int] == p@[i as int]);
                }
            }
            return false;
        }
        i += 1;
    }
    if !is_root {
        if p.get_char(dir_len) != '/' {
            proof {
                let base = spec_child_base(dir@);
                assert(base[dir_len as int] == '/');
                assert(p@ != dir@);
                assert(p@.subrange(0, base.len() as int) != base) by {
                    assert(p@.subrange(0, base.len() as int)[dir_len as int] == p@[dir_len as int]);
                }
            }
            return false;
        }
    }
    proof {
        let base = spec_child_base(dir@);
        assert(p@.subrange(0, base.len() as int) =~= base);
    }
    true
}

/// Entries that survive a filter are entries of the original sequence, and
/// a filter keeps paths unique.
pub proof fn lemma_filter_entries(s: Seq<Entry>, pred: spec_fn(Entry) -> bool)
    ensures
        forall|i: int|
            0 <= i < s.filter(pred).len() ==> exists|k: int|
                0 <= k < s.len() && s[k] == #[trigger] s.filter(pred)[i],
        paths_unique(s) ==> paths_unique(s.filter(pred)),
    decreases s.len(),
{
    reveal(Seq::filter);
    if s.len() == 0 {
    } else {
        let d = s.drop_last();
        lemma_filter_entries(d, pred);
        assert(forall|k: int| 0 <= k < d.len() ==> d[k] == s[k]);
        let t = s.filter(pred);
        let td = d.filter(pred);
        assert forall|i: int| 0 <= i < t.len() implies exists|k: int|
            0 <= k < s.len() && s[k] == #[trigger] t[i] by {
            if pred(s.last()) && i == t.len() - 1 {
                assert(s[s.len() - 1] == t[i]);
            } else {
                assert(t[i] == td[i]);
                let k = choose|k: int| 0 <= k < d.len() && d[k] == td[i];
                assert(s[k] == t[i]);
            }
        }
        if paths_unique(s) {
            assert(paths_unique(d));
            assert forall|a: int, b: int| 0 <= a < b < t.len() implies t[a].path@ != t[b].path@ by {
                if pred(s.last()) && b == t.len() - 1 {
                    assert(t[a] == td[a]);
                    let k = choose|k: int| 0 <= k < d.len() && d[k] == td[a];
                    assert(s[k].path@ != s[s.len() - 1].path@);
                } else {
                    assert(t[a] == td[a] && t[b] == td[b]);
                }
            }
        }
    }
}

/// A sequence extended by one element filters to the old filtering, plus
/// the element where the filter keeps it.
pub proof fn lemma_filter_push(s: Seq<Entry>, e: Entry, pred: spec_fn(Entry) -> bool)
    ensures
        pred(e) ==> s.push(e).filter(pred) == s.filter(pred).push(e),
        !pred(e) ==> s.push(e).filter(pred) == s.filter(pred),
{
    reveal(Seq::filter);
    let t = s.push(e);
    assert(t.drop_last() =~= s);
    assert(t.last() == e);
}

impl Bridge {
    /// Destroys the repository at a location: the repository disappears
    /// and the location reads as free again.
    pub fn repo_destroy(&mut self, uri: &str) -> (r: Result<(), BridgeError>)
        requires
            old(self).wf(),
        ensures
            final(self).wf(),
            final(self).table.slots@ == old(self).table.slots@,
            match r {
                Ok(_) => has_repo(old(self).repos@, uri@) && final(self).repos@ == old(
                    self,
                ).repos@.update(repo_idx_of(old(self).repos@, uri@), None),
                Err(e) => e == BridgeError::NotFound && !has_repo(old(self).repos@, uri@)
                    && *final(self) == *old(self),
            },
    {
        match self.find_repo(uri) {
            Some(i) => {
                proof {
                    lemma_repo_at(self.repos@, i as int);
                    lemma_update_repo(self.repos@, i as int, None);
                }
                self.repos.set(i, None);
                Ok(())
            },
            None => Err(BridgeError::NotFound),
        }
    }

    /// Removes the file a rooted path names.
    pub fn repo_remove_file(&mut self, token: usize, path: &str) -> (r: Result<(), BridgeError>)
        requires
            old(self).wf(),
        ensures
            final(self).wf(),
            final(self).table.slots@ == old(self).table.slots@,
            match resolve_repo_spec(*old(self), token) {
                Ok(hs) => {
                    let entries0 = hs.1.data.entries@;
                    if !spec_path_rooted(path@) {
                        r == Err::<(), BridgeError>(BridgeError::InvalidPath) && *final(self)
                            == *old(self)
                    } else if hs.0.read_only {
                        r == Err::<(), BridgeError>(BridgeError::ReadOnly) && *final(self) == *old(
                            self,
                        )
                    } else if path@ == seq!['/'] {
                        r == Err::<(), BridgeError>(BridgeError::NotFile) && *final(self) == *old(
                            self,
                        )
                    } else if !has_entry(entries0, path@) {
                        r == Err::<(), BridgeError>(BridgeError::NotFound) && *final(self) == *old(
                            self,
                        )
                    } else if entry_of(entries0, path@).kind == FileKind::Dir {
                        r == Err::<(), BridgeError>(BridgeError::NotFile) && *final(self) == *old(
                            self,
                        )
                    } else {
                        &&& r == Ok::<(), BridgeError>(())
                        &&& crate::open_ops::repos_with_entries(
                            old(self).repos@,
                            final(self).repos@,
                            hs.0.repo_idx,
                            entries0.remove(entry_idx(entries0, path@)),
                        )
                    }
                },
                Err(e) => r == Err::<(), BridgeError>(e) && *final(self) == *old(self),
            },
    {
        let ri = match self.resolve_repo(token) {
            Ok(ri) => ri,
            Err(e) => return Err(e),
        };
        if !path_is_rooted(path) {
            return Err(BridgeError::InvalidPath);
        }
        let read_only = match self.get_repo(token) {
            Ok(h) => h.read_only,
            Err(e) => return Err(e),
        };
        if read_only {
            return Err(BridgeError::ReadOnly);
        }
        if path.unicode_len() == 1 {
            proof {
                assert(path@ =~= seq!['/']);
            }
            return Err(BridgeError::NotFile);
        }
        proof {
            assert(self.repos@[ri as int] matches Some(st) ==> paths_unique(st.data.entries@));
        }
        let j = match &self.repos[ri] {
            Some(store) => {
                match crate::store::find_entry(&store.data.entries, path) {
                    Some(j) => {
                        proof {
                            lemma_entry_at(store.data.entries@, j as int);
                        }
                        match store.data.entries[j].kind {
                            FileKind::Dir => {
                                return Err(BridgeError::NotFile);
                            },
                            FileKind::File => j,
                        }
                    },
                    None => {
                        return Err(BridgeError::NotFound);
                    },
                }
            },
            None => {
                return Err(BridgeError::NotFound);
            },
        };
        let ghost entries0 = self.repos@[ri as int]->0.data.entries@;
        match &mut self.repos[ri] {
            Some(store) => {
                proof {
                    lemma_remove_entry(store.data.entries@, j as int);
                }
                store.data.entries.remove(j);
            },
            None => {},
        }
        proof {
            lemma_update_repo(old(self).repos@, ri as int, self.repos@[ri as int]);
        }
        Ok(())
    }

    /// Removes the directory a rooted path names; it must be empty, and
    /// the root cannot be removed.
    pub fn repo_remove_dir(&mut self, token: usize, path: &str) -> (r: Result<(), BridgeError>)
        requires
            old(self).wf(),
        ensures
            final(self).wf(),
            final(self).table.slots@ == old(self).table.slots@,
            match resolve_repo_spec(*old(self), token) {
                Ok(hs) => {
                    let entries0 = hs.1.data.entries@;
                    if !spec_path_rooted(path@) {
                        r == Err::<(), BridgeError>(BridgeError::InvalidPath) && *final(self)
                            == *old(self)
                    } else if hs.0.read_only {
                        r == Err::<(), BridgeError>(BridgeError::ReadOnly) && *final(self) == *old(
                            self,
                        )
                    } else if path@ == seq!['/'] {
                        r == Err::<(), BridgeError>(BridgeError::IsRoot) && *final(self) == *old(
                            self,
                        )
                    } else if !has_entry(entries0, path@) {
                        r == Err::<(), BridgeError>(BridgeError::NotFound) && *final(self) == *old(
                            self,
                        )
                    } else if entry_of(entries0, path@).kind == FileKind::File {
                        r == Err::<(), BridgeError>(BridgeError::NotDir) && *final(self) == *old(
                            self,
                        )
                    } else if exists|k: int|
                        0 <= k < entries0.len() && (#[trigger] entries0[k].path@) != path@
                            && spec_within(path@, entries0[k].path@) {
                        r == Err::<(), BridgeError>(BridgeError::NotEmpty) && *final(self) == *old(
                            self,
                        )
                    } else {
                        &&& r == Ok::<(), BridgeError>(())
                        &&& crate::open_ops::repos_with_entries(
                            old(self).repos@,
                            final(self).repos@,
                            hs.0.repo_idx,
                            entries0.remove(entry_idx(entries0, path@)),
                        )
                    }
                },
                Err(e) => r == Err::<(), BridgeError>(e) && *final(self) == *old(self),
            },
    {
        let ri = match self.resolve_repo(token) {
            Ok(ri) => ri,
            Err(e) => return Err(e),
        };
        if !path_is_rooted(path) {
            return Err(BridgeError::InvalidPath);
        }
        let read_only = match self.get_repo(token) {
            Ok(h) => h.read_only,
            Err(e) => return Err(e),
        };
        if read_only {
            return Err(BridgeError::ReadOnly);
        }
        if path.unicode_len() == 1 {
            proof {
                assert(path@ =~= seq!['/']);
            }
            return Err(BridgeError::IsRoot);
        }
        proof {
            assert(self.repos@[ri as int] matches Some(st) ==> paths_unique(st.data.entries@));
        }
        let j = match &self.repos[ri] {
            Some(store) => {
                match crate::store::find_entry(&store.data.entries, path) {
                    Some(j) => {
                        proof {
                            lemma_entry_at(store.data.entries@, j as int);
                        }
                        match store.data.entries[j].kind {
                            FileKind::File => {
                                return Err(BridgeError::NotDir);
                            },
                            FileKind::Dir => j,
                        }
                    },
                    None => {
                        return Err(BridgeError::NotFound);
                    },
                }
            },
            None => {
                return Err(BridgeError::NotFound);
            },
        };
        // the directory must hold nothing
        let child = match &self.repos[ri] {
            Some(store) => find_entry_within(&store.data.entries, path),
            None => None,
        };
        if child.is_some() {
            return Err(BridgeError::NotEmpty);
        }
        let ghost entries0 = self.repos@[ri as int]->0.data.entries@;
        match &mut self.repos[ri] {
            Some(store) => {
                proof {
                    lemma_remove_entry(store.data.entries@, j as int);
                }
                store.data.entries.remove(j);
            },
            None => {},
        }
        proof {
            lemma_update_repo(old(self).repos@, ri as int, self.repos@[ri as int]);
        }
        Ok(())
    }

    /// Removes the directory a rooted path names together with everything
    /// within it; on the root this empties the whole repository.
    pub fn repo_remove_dir_all(&mut self, token: usize, path: &str) -> (r: Result<(), BridgeError>)
        requires
            old(self).wf(),
        ensures
            final(self).wf(),
            final(self).table.slots@ == old(self).table.slots@,
            match resolve_repo_spec(*old(self), token) {
                Ok(hs) => {
                    let entries0 = hs.1.data.entries@;
                    if !spec_path_rooted(path@) {
                        r == Err::<(), BridgeError>(BridgeError::InvalidPath) && *final(self)
                            == *old(self)
                    } else if hs.0.read_only {
                        r == Err::<(), BridgeError>(BridgeError::ReadOnly) && *final(self) == *old(
                            self,
                        )
                    } else if path@ != seq!['/'] && has_entry(entries0, path@) && entry_of(
                        entries0,
                        path@,
                    ).kind == FileKind::File {
                        r == Err::<(), BridgeError>(BridgeError::NotDir) && *final(self) == *old(
                            self,
                        )
                    } else {
                        &&& r == Ok::<(), BridgeError>(())
                        &&& crate::open_ops::repos_with_entries(
                            old(self).repos@,
                            final(self).repos@,
                            hs.0.repo_idx,
                            entries0.filter(|e: Entry| !spec_within(path@, e.path@)),
                        )
                    }
                },
                Err(e) => r == Err::<(), BridgeError>(e) && *final(self) == *old(self),
            },
    {
        let ri = match self.resolve_repo(token) {
            Ok(ri) => ri,
            Err(e) => return Err(e),
        };
        if !path_is_rooted(path) {
            return Err(BridgeError::InvalidPath);
        }
        let read_only = match self.get_repo(token) {
            Ok(h) => h.read_only,
            Err(e) => return Err(e),
        };
        if read_only {
            return Err(BridgeError::ReadOnly);
        }
        if path.unicode_len() > 1 {
            proof {
                assert(path@ != seq!['/']);
            }
            proof {
                assert(self.repos@[ri as int] matches Some(st) ==> paths_unique(st.data.entries@));
            }
            match &self.repos[ri] {
                Some(store) => {
                    match crate::store::find_entry(&store.data.entries, path) {
                        Some(j) => {
                            proof {
                                lemma_entry_at(store.data.entries@, j as int);
                            }
                            match store.data.entries[j].kind {
                                FileKind::File => {
                                    return Err(BridgeError::NotDir);
                                },
                                FileKind::Dir => {},
                            }
                        },
                        None => {},
                    }
                },
                None => {
                    return Err(BridgeError::NotFound);
                },
            }
        } else {
            proof {
                assert(path@ =~= seq!['/']);
            }
        }
        let ghost entries0 = self.repos@[ri as int]->0.data.entries@;
        let ghost pred = |e: Entry| !spec_within(path@, e.path@);
        let mut owned: Vec<Entry> = Vec::new();
        match &mut self.repos[ri] {
            Some(store) => {
                core::mem::swap(&mut store.data.entries, &mut owned);
            },
            None => {},
        }
        let kept = filter_outside(owned, path);
        match &mut self.repos[ri] {
            Some(store) => {
                store.data.entries = kept;
            },
            None => {},
        }
        proof {
            lemma_filter_entries(entries0, pred);
            assert(self.repos@ =~= old(self).repos@.update(ri as int, self.repos@[ri as int]));
            lemma_update_repo(old(self).repos@, ri as int, self.repos@[ri as int]);
        }
        Ok(())
    }
}

/// One directory-listing entry marshalled from a store entry: the full
/// path, the name below the listed directory, and the entry's metadata.
pub open spec fn spec_dir_entry_match(d: DirEntry, e: Entry, dir: Seq<char>) -> bool {
    &&& d.path@ == e.path@
    &&& d.file_name@ == e.path@.subrange(spec_child_base(dir).len() as int, e.path@.len() as int)
    &&& d.metadata == spec_metadata_of(e)
}

impl Bridge {
    /// Lists a directory: every entry that is a direct child of the given
    /// rooted path, in store order, marshalled with its name and metadata.
    pub fn repo_read_dir(&self, token: usize, path: &str) -> (r: Result<Vec<DirEntry>, BridgeError>)
        requires
            self.wf(),
        ensures
            match resolve_repo_spec(*self, token) {
                Ok(hs) => {
                    let entries = hs.1.data.entries@;
                    let children = entries.filter(
                        |e: Entry| spec_direct_child(path@, e.path@),
                    );
                    if !spec_path_rooted(path@) {
                        r == Err::<Vec<DirEntry>, BridgeError>(BridgeError::InvalidPath)
                    } else if path@ != seq!['/'] && !has_entry(entries, path@) {
                        r == Err::<Vec<DirEntry>, BridgeError>(BridgeError::NotFound)
                    } else if path@ != seq!['/'] && entry_of(entries, path@).kind
                        == FileKind::File {
                        r == Err::<Vec<DirEntry>, BridgeError>(BridgeError::NotDir)
                    } else {
                        r matches Ok(ds) && ds@.len() == children.len() && forall|i: int|
                            0 <= i < ds@.len() ==> spec_dir_entry_match(
                                #[trigger] ds@[i],
                                children[i],
                                path@,
                            )
                    }
                },
                Err(e) => r == Err::<Vec<DirEntry>, BridgeError>(e),
            },
    {
        let ri = match self.resolve_repo(token) {
            Ok(ri) => ri,
            Err(e) => return Err(e),
        };
        if !path_is_rooted(path) {
            return Err(BridgeError::InvalidPath);
        }
        proof {
            assert(self.repos@[ri as int] matches Some(st) ==> paths_unique(st.data.entries@));
        }
        let store = match &self.repos[ri] {
            Some(store) => store,
            None => {
                return Err(BridgeError::NotFound);
            },
        };
        if path.unicode_len() > 1 {
            proof {
                assert(path@ != seq!['/']);
            }
            match crate::store::find_entry(&store.data.entries, path) {
                Some(j) => {
                    proof {
                        lemma_entry_at(store.data.entries@, j as int);
                    }
                    match store.data.entries[j].kind {
                        FileKind::File => {
                            return Err(BridgeError::NotDir);
                        },
                        FileKind::Dir => {},
                    }
                },
                None => {
                    return Err(BridgeError::NotFound);
                },
            }
        } else {
            proof {
                assert(path@ =~= seq!['/']);
            }
        }
        let ghost pred = |e: Entry| spec_direct_child(path@, e.path@);
        let entries = &store.data.entries;
        let n = entries.len();
        let mut ds: Vec<DirEntry> = Vec::new();
        let mut i: usize = 0;
        proof {
            assert(entries@.take(0int) =~= Seq::<Entry>::empty());
            reveal(Seq::filter);
        }
        while i < n
            invariant
                i <= n,
                n == entries@.len(),
                spec_path_rooted(path@),
                pred == (|e: Entry| spec_direct_child(path@, e.path@)),
                ds@.len() == entries@.take(i as int).filter(pred).len(),
                forall|k: int|
                    0 <= k < ds@.len() ==> spec_dir_entry_match(
                        #[trigger] ds@[k],
                        entries@.take(i as int).filter(pred)[k],
                        path@,
                    ),
            decreases n - i,
        {
            proof {
                assert(entries@.take(i + 1int) =~= entries@.take(i as int).push(
                    entries@[i as int],
                ));
                lemma_filter_push(entries@.take(i as int), entries@[i as int], pred);
            }
            let e = &entries[i];
            if is_direct_child(path, e.path.as_str()) {
                let name = child_name(path, e.path.as_str());
                ds.push(
                    DirEntry {
                        path: e.path.clone(),
                        file_name: name,
                        metadata: crate::values::Metadata {
                            kind: e.kind,
                            content_len: e.content.len() as u64,
                            curr_version: e.curr_version,
                            created_at: e.created_at,
                            modified_at: e.modified_at,
                        },
                    },
                );
            }
            i += 1;
        }
        proof {
            assert(entries@.take(n as int) =~= entries@);
        }
        Ok(ds)
    }
}

/// Whether `k` cuts the path at a separator boundary: the prefix
/// `path.take(k)` is a directory level of the path (the whole path
/// included, the bare root excluded).
pub open spec fn spec_level_cut(path: Seq<char>, k: int) -> bool {
    1 < k <= path.len() && (k == path.len() || path[k] == '/')
}

/// After creating a directory chain: the old entries stand untouched in
/// front, every added entry is a fresh directory at a level of the path,
/// and every level of the path is present.
pub open spec fn spec_dir_all_post(
    entries0: Seq<Entry>,
    entries1: Seq<Entry>,
    path: Seq<char>,
    now_secs: i64,
) -> bool {
    &&& entries1.len() >= entries0.len()
    &&& forall|j: int| 0 <= j < entries0.len() ==> entries1[j] == entries0[j]
    &&& forall|j: int|
        entries0.len() <= j < entries1.len() ==> {
            let e = #[trigger] entries1[j];
            &&& e.kind == FileKind::Dir
            &&& e.content@.len() == 0
            &&& e.curr_version == 0
            &&& e.versions@.len() == 0
            &&& e.created_at == now_secs
            &&& e.modified_at == now_secs
            &&& exists|k: int| spec_level_cut(path, k) && e.path@ == path.take(k)
        }
    &&& forall|k: int| #[trigger]
        spec_level_cut(path, k) ==> has_entry(entries1, path.take(k))
}

impl Bridge {
    /// Reports whether a file is standing at a directory level.
    fn level_is_file(&self, ri: usize, prefix: &str) -> (r: bool)
        requires
            self.wf(),
            ri < self.repos@.len(),
            self.repos@[ri as int] is Some,
        ensures
            r == (has_entry(self.repos@[ri as int]->0.data.entries@, prefix@) && entry_of(
                self.repos@[ri as int]->0.data.entries@,
                prefix@,
            ).kind == FileKind::File),
    {
        proof {
            assert(self.repos@[ri as int] matches Some(st) ==> paths_unique(st.data.entries@));
        }
        match &self.repos[ri] {
            Some(store) => {
                match crate::store::find_entry(&store.data.entries, prefix) {
                    Some(j) => {
                        proof {
                            lemma_entry_at(store.data.entries@, j as int);
                        }
                        match store.data.entries[j].kind {
                            FileKind::File => true,
                            FileKind::Dir => false,
                        }
                    },
                    None => false,
                }
            },
            None => false,
        }
    }

    /// Makes sure one directory level is present, adding a fresh directory
    /// entry where the level is missing.
    fn ensure_dir_level(&mut self, ri: usize, prefix: &str, now_secs: i64)
        requires
            old(self).wf(),
            ri < old(self).repos@.len(),
            old(self).repos@[ri as int] is Some,
        ensures
            final(self).wf(),
            final(self).table.slots@ == old(self).table.slots@,
            crate::open_ops::repos_with_entries(
                old(self).repos@,
                final(self).repos@,
                ri,
                final(self).repos@[ri as int]->0.data.entries@,
            ),
            has_entry(old(self).repos@[ri as int]->0.data.entries@, prefix@) ==> final(self).repos@
                == old(self).repos@,
            !has_entry(old(self).repos@[ri as int]->0.data.entries@, prefix@) ==> {
                let entries0 = old(self).repos@[ri as int]->0.data.entries@;
                let entries1 = final(self).repos@[ri as int]->0.data.entries@;
                &&& entries1.len() == entries0.len() + 1
                &&& (forall|j: int| 0 <= j < entries0.len() ==> entries1[j] == entries0[j])
                &&& {
                    let e = entries1[entries0.len() as int];
                    &&& e.path@ == prefix@
                    &&& e.kind == FileKind::Dir
                    &&& e.content@.len() == 0
                    &&& e.curr_version == 0
                    &&& e.versions@.len() == 0
                    &&& e.created_at == now_secs
                    &&& e.modified_at == now_secs
                }
            },
            has_entry(final(self).repos@[ri as int]->0.data.entries@, prefix@),
            forall|q: Seq<char>|
                has_entry(old(self).repos@[ri as int]->0.data.entries@, q) ==> has_entry(
                    final(self).repos@[ri as int]->0.data.entries@,
                    q,
                ),
    {
        proof {
            assert(self.repos@[ri as int] matches Some(st) ==> paths_unique(st.data.entries@));
        }
        let missing = match &self.repos[ri] {
            Some(store) => crate::store::find_entry(&store.data.entries, prefix).is_none(),
            None => true,
        };
        if missing {
            let e = Entry {
                path: String::from_str(prefix),
                kind: FileKind::Dir,
                content: Vec::new(),
                curr_version: 0,
                versions: Vec::new(),
                created_at: now_secs,
                modified_at: now_secs,
            };
            match &mut self.repos[ri] {
                Some(store) => {
                    proof {
                        crate::store::lemma_push_entry(store.data.entries@, e);
                    }
                    store.data.entries.push(e);
                },
                None => {},
            }
            proof {
                lemma_update_repo(old(self).repos@, ri as int, self.repos@[ri as int]);
                let entries0 = old(self).repos@[ri as int]->0.data.entries@;
                let entries1 = self.repos@[ri as int]->0.data.entries@;
                assert(entries1[entries0.len() as int].path@ == prefix@);
                assert(has_entry(entries1, prefix@));
                assert forall|q: Seq<char>| has_entry(entries0, q) implies has_entry(
                    entries1,
                    q,
                ) by {
                    let w = choose|w: int| 0 <= w < entries0.len() && entries0[w].path@ == q;
                    assert(entries1[w].path@ == q);
                }
            }
        } else {
            proof {
                let entries0 = old(self).repos@[ri as int]->0.data.entries@;
                assert(has_entry(entries0, prefix@));
            }
        }
    }

    /// Creates the directory a rooted path names together with every
    /// missing directory above it.  Existing levels are kept as they are;
    /// a file standing at any level blocks the whole call.
    pub fn repo_create_dir_all(&mut self, token: usize, path: &str, now: Timestamp) -> (r: Result<
        (),
        BridgeError,
    >)
        requires
            old(self).wf(),
            now.secs <= i64::MAX,
        ensures
            final(self).wf(),
            final(self).table.slots@ == old(self).table.slots@,
            match resolve_repo_spec(*old(self), token) {
                Ok(hs) => {
                    let entries0 = hs.1.data.entries@;
                    if !spec_path_rooted(path@) {
                        r == Err::<(), BridgeError>(BridgeError::InvalidPath) && *final(self)
                            == *old(self)
                    } else if hs.0.read_only {
                        r == Err::<(), BridgeError>(BridgeError::ReadOnly) && *final(self) == *old(
                            self,
                        )
                    } else if path@ == seq!['/'] {
                        r == Ok::<(), BridgeError>(()) && *final(self) == *old(self)
                    } else if exists|k: int| #[trigger]
                        spec_level_cut(path@, k) && has_entry(entries0, path@.take(k))
                            && entry_of(entries0, path@.take(k)).kind == FileKind::File {
                        r == Err::<(), BridgeError>(BridgeError::NotDir) && *final(self) == *old(
                            self,
                        )
                    } else {
                        &&& r == Ok::<(), BridgeError>(())
                        &&& crate::open_ops::repos_with_entries(
                            old(self).repos@,
                            final(self).repos@,
                            hs.0.repo_idx,
                            final(self).repos@[hs.0.repo_idx as int]->0.data.entries@,
                        )
                        &&& spec_dir_all_post(
                            entries0,
                            final(self).repos@[hs.0.repo_idx as int]->0.data.entries@,
                            path@,
                            now.secs as i64,
                        )
                    }
                },
                Err(e) => r == Err::<(), BridgeError>(e) && *final(self) == *old(self),
            },
    {
        let ri = match self.resolve_repo(token) {
            Ok(ri) => ri,
            Err(e) => return Err(e),
        };
        if !path_is_rooted(path) {
            return Err(BridgeError::InvalidPath);
        }
        let read_only = match self.get_repo(token) {
            Ok(h) => h.read_only,
            Err(e) => return Err(e),
        };
        if read_only {
            return Err(BridgeError::ReadOnly);
        }
        let n = path.unicode_len();
        if n == 1 {
            proof {
                assert(path@ =~= seq!['/']);
            }
            return Ok(());
        }
        // first pass: a file standing at any level blocks the call
        let mut k: usize = 2;
        while k < n
            invariant
                2 <= k <= n,
                n == path@.len(),
                self.wf(),
                *self == *old(self),
                ri < self.repos@.len(),
                self.repos@[ri as int] is Some,
                resolve_repo_spec(*old(self), token) matches Ok(hs) && hs.0.repo_idx == ri
                    && old(self).repos@[ri as int] == Some(hs.1) && !hs.0.read_only,
                spec_path_rooted(path@),
                1 < n,
                forall|c: int|
                    #[trigger] spec_level_cut(path@, c) && c < k ==> !(has_entry(
                        self.repos@[ri as int]->0.data.entries@,
                        path@.take(c),
                    ) && entry_of(self.repos@[ri as int]->0.data.entries@, path@.take(c)).kind
                        == FileKind::File),
            decreases n - k,
        {
            if path.get_char(k) == '/' {
                let prefix = path.substring_char(0, k);
                proof {
                    assert(prefix@ =~= path@.take(k as int));
                }
                if self.level_is_file(ri, prefix) {
                    proof {
                        assert(spec_level_cut(path@, k as int));
                    }
                    return Err(BridgeError::NotDir);
                }
            }
            k += 1;
        }
        let full = path.substring_char(0, n);
        proof {
            assert(full@ =~= path@.take(n as int));
        }
        if self.level_is_file(ri, full) {
            proof {
                assert(spec_level_cut(path@, n as int));
            }
            return Err(BridgeError::NotDir);
        }
        // second pass: add a fresh directory at every missing level
        let now_secs = crate::time_to_secs(now);
        let ghost entries0 = self.repos@[ri as int]->0.data.entries@;
        let mut k2: usize = 2;
        while k2 < n
            invariant
                2 <= k2 <= n,
                n == path@.len(),
                self.wf(),
                old(self).wf(),
                self.table.slots@ == old(self).table.slots@,
                ri < self.repos@.len(),
                self.repos@[ri as int] is Some,
                old(self).repos@[ri as int] is Some,
                spec_path_rooted(path@),
                crate::open_ops::repos_with_entries(
                    old(self).repos@,
                    self.repos@,
                    ri,
                    self.repos@[ri as int]->0.data.entries@,
                ),
                entries0 == old(self).repos@[ri as int]->0.data.entries@,
                ({
                    let entries1 = self.repos@[ri as int]->0.data.entries@;
                    &&& entries1.len() >= entries0.len()
                    &&& (forall|j: int| 0 <= j < entries0.len() ==> entries1[j] == entries0[j])
                    &&& (forall|j: int|
                        entries0.len() <= j < entries1.len() ==> {
                            let e = #[trigger] entries1[j];
                            &&& e.kind == FileKind::Dir
                            &&& e.content@.len() == 0
                            &&& e.curr_version == 0
                            &&& e.versions@.len() == 0
                            &&& e.created_at == now_secs
                            &&& e.modified_at == now_secs
                            &&& exists|c: int| spec_level_cut(path@, c) && e.path@ == path@.take(c)
                        })
                    &&& (forall|c: int| #[trigger]
                        spec_level_cut(path@, c) && c < k2 ==> has_entry(
                            entries1,
                            path@.take(c),
                        ))
                }),
            decreases n - k2,
        {
            let ghost pre = *self;
            if path.get_char(k2) == '/' {
                let prefix = path.substring_char(0, k2);
                proof {
                    assert(prefix@ =~= path@.take(k2 as int));
                    assert(spec_level_cut(path@, k2 as int));
                }
                self.ensure_dir_level(ri, prefix, now_secs);
                proof {
                    lemma_dir_all_step(pre, *self, *old(self), ri, path@, k2 as int, now_secs);
                }
            }
            k2 += 1;
        }
        let ghost pre_last = *self;
        let full2 = path.substring_char(0, n);
        proof {
            assert(full2@ =~= path@.take(n as int));
            assert(spec_level_cut(path@, n as int));
        }
        self.ensure_dir_level(ri, full2, now_secs);
        proof {
            lemma_dir_all_step(pre_last, *self, *old(self), ri, path@, n as int, now_secs);
            let entries1 = self.repos@[ri as int]->0.data.entries@;
            assert forall|c: int| #[trigger] spec_level_cut(path@, c) implies has_entry(
                entries1,
                path@.take(c),
            ) by {
                if c < n {
                    assert(has_entry(pre_last.repos@[ri as int]->0.data.entries@, path@.take(c)));
                }
            }
        }
        Ok(())
    }
}

/// One step of the directory-chain creation: after making one level
/// present, the accumulated relation between the original entries and the
/// current ones still holds, one level further.
proof fn lemma_dir_all_step(
    pre: Bridge,
    post: Bridge,
    orig: Bridge,
    ri: usize,
    path: Seq<char>,
    k: int,
    now_secs: i64,
)
    requires
        ri < orig.repos@.len(),
        orig.repos@[ri as int] is Some,
        pre.repos@[ri as int] is Some,
        post.repos@[ri as int] is Some,
        spec_level_cut(path, k),
        crate::open_ops::repos_with_entries(
            orig.repos@,
            pre.repos@,
            ri,
            pre.repos@[ri as int]->0.data.entries@,
        ),
        crate::open_ops::repos_with_entries(
            pre.repos@,
            post.repos@,
            ri,
            post.repos@[ri as int]->0.data.entries@,
        ),
        ({
            let entries0 = orig.repos@[ri as int]->0.data.entries@;
            let e1 = pre.repos@[ri as int]->0.data.entries@;
            let e2 = post.repos@[ri as int]->0.data.entries@;
            &&& e1.len() >= entries0.len()
            &&& (forall|j: int| 0 <= j < entries0.len() ==> e1[j] == entries0[j])
            &&& (has_entry(e1, path.take(k)) ==> e2 == e1)
            &&& (!has_entry(e1, path.take(k)) ==> e2.len() == e1.len() + 1 && (forall|j: int|
                0 <= j < e1.len() ==> e2[j] == e1[j]) && {
                let e = e2[e1.len() as int];
                &&& e.path@ == path.take(k)
                &&& e.kind == FileKind::Dir
                &&& e.content@.len() == 0
                &&& e.curr_version == 0
                &&& e.versions@.len() == 0
                &&& e.created_at == now_secs
                &&& e.modified_at == now_secs
            })
            &&& has_entry(e2, path.take(k))
            &&& (forall|q: Seq<char>| has_entry(e1, q) ==> has_entry(e2, q))
            &&& (forall|j: int|
                entries0.len() <= j < e1.len() ==> {
                    let e = #[trigger] e1[j];
                    &&& e.kind == FileKind::Dir
                    &&& e.content@.len() == 0
                    &&& e.curr_version == 0
                    &&& e.versions@.len() == 0
                    &&& e.created_at == now_secs
                    &&& e.modified_at == now_secs
                    &&& exists|c: int| spec_level_cut(path, c) && e.path@ == path.take(c)
                })
            &&& (forall|c: int| #[trigger]
                spec_level_cut(path, c) && c < k ==> has_entry(e1, path.take(c)))
        }),
    ensures
        crate::open_ops::repos_with_entries(
            orig.repos@,
            post.repos@,
            ri,
            post.repos@[ri as int]->0.data.entries@,
        ),
        ({
            let entries0 = orig.repos@[ri as int]->0.data.entries@;
            let e2 = post.repos@[ri as int]->0.data.entries@;
            &&& e2.len() >= entries0.len()
            &&& (forall|j: int| 0 <= j < entries0.len() ==> e2[j] == entries0[j])
            &&& (forall|j: int|
                entries0.len() <= j < e2.len() ==> {
                    let e = #[trigger] e2[j];
                    &&& e.kind == FileKind::Dir
                    &&& e.content@.len() == 0
                    &&& e.curr_version == 0
                    &&& e.versions@.len() == 0
                    &&& e.created_at == now_secs
                    &&& e.modified_at == now_secs
                    &&& exists|c: int| spec_level_cut(path, c) && e.path@ == path.take(c)
                })
            &&& (forall|c: int| #[trigger]
                spec_level_cut(path, c) && c < k + 1 ==> has_entry(e2, path.take(c)))
        }),
{
    let entries0 = orig.repos@[ri as int]->0.data.entries@;
    let e1 = pre.repos@[ri as int]->0.data.entries@;
    let e2 = post.repos@[ri as int]->0.data.entries@;
    if !has_entry(e1, path.take(k)) {
        assert forall|j: int| entries0.len() <= j < e2.len() implies {
            let e = #[trigger] e2[j];
            &&& e.kind == FileKind::Dir
            &&& e.content@.len() == 0
            &&& e.curr_version == 0
            &&& e.versions@.len() == 0
            &&& e.created_at == now_secs
            &&& e.modified_at == now_secs
            &&& exists|c: int| spec_level_cut(path, c) && e.path@ == path.take(c)
        } by {
            if j < e1.len() {
                assert(e2[j] == e1[j]);
            } else {
                assert(e2[j].path@ == path.take(k));
            }
        }
    }
    assert forall|c: int| #[trigger] spec_level_cut(path, c) && c < k + 1 implies has_entry(
        e2,
        path.take(c),
    ) by {
        if c < k {
            assert(has_entry(e1, path.take(c)));
        }
    }
}

/// Finds an entry strictly within a directory, if any./// Finds an entry strictly within a directory, if any.
fn find_entry_within(entries: &Vec<Entry>, dir: &str) -> (r: Option<usize>)
    requires
        spec_path_rooted(dir@),
    ensures
        match r {
            Some(j) => j < entries@.len() && entries@[j as int].path@ != dir@ && spec_within(
                dir@,
                entries@[j as int].path@,
            ),
            None => forall|k: int|
                0 <= k < entries@.len() ==> !((#[trigger] entries@[k].path@) != dir@
                    && spec_within(dir@, entries@[k].path@)),
        },
{
    let n = entries.len();
    let mut i: usize = 0;
    while i < n
        invariant
            i <= n,
            n == entries@.len(),
            spec_path_rooted(dir@),
            forall|k: int|
                0 <= k < i ==> !((#[trigger] entries@[k].path@) != dir@ && spec_within(
                    dir@,
                    entries@[k].path@,
                )),
        decreases n - i,
    {
        let p = &entries[i].path;
        if is_within(dir, p.as_str()) {
            if !crate::values::str_eq(p.as_str(), dir) {
                return Some(i);
            }
        }
        i += 1;
    }
    None
}

/// Keeps the entries that lie outside a directory, in their order,
/// consuming the sequence.
fn filter_outside(src: Vec<Entry>, dir: &str) -> (r: Vec<Entry>)
    requires
        spec_path_rooted(dir@),
    ensures
        r@ == src@.filter(|e: Entry| !spec_within(dir@, e.path@)),
{
    let ghost orig = src@;
    let ghost pred = |e: Entry| !spec_within(dir@, e.path@);
    let mut src = src;
    let mut kept: Vec<Entry> = Vec::new();
    let ghost mut k: int = 0;
    proof {
        assert(orig.take(0int) =~= Seq::<Entry>::empty());
        reveal(Seq::filter);
        assert(src@ =~= orig.skip(0int));
    }
    while src.len() > 0
        invariant
            0 <= k <= orig.len(),
            spec_path_rooted(dir@),
            pred == (|e: Entry| !spec_within(dir@, e.path@)),
            src@ == orig.skip(k),
            kept@ == orig.take(k).filter(pred),
        decreases src@.len(),
    {
        let e = src.remove(0);
        proof {
            assert(e == orig[k]);
            assert(src@ =~= orig.skip(k + 1));
            assert(orig.take(k + 1) =~= orig.take(k).push(orig[k]));
            lemma_filter_push(orig.take(k), orig[k], pred);
        }
        if !is_within(dir, e.path.as_str()) {
            kept.push(e);
        }
        proof {
            k = k + 1;
        }
    }
    proof {
        assert(k == orig.len());
        assert(orig.take(k) =~= orig);
    }
    kept
}

} // verus!
