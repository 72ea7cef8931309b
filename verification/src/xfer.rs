//! Transfers inside a repository: copying a file's content to another
//! path, and renaming an entry together with everything within it.

use vstd::prelude::*;
use crate::bridge::{lemma_update_repo, Bridge};
use crate::error::BridgeError;
use crate::file_ops::entries_committed;
use crate::paths::{path_is_rooted, spec_child_base, spec_path_rooted};
use crate::repo_tree::{is_within, lemma_filter_push, spec_within};
use crate::repo_ops::resolve_repo_spec;
use crate::store::{
    entry_of, has_entry, lemma_entry_at, lemma_push_entry, lemma_update_entry, paths_unique,
    Entry, VersionData,
};
use crate::values::{FileKind, Timestamp};

verus! {

/// The second entry sequence is the first with one fresh file entry
/// appended that carries `data` as its content, already committed as its
/// first version.
pub open spec fn entries_plus_copied(
    entries0: Seq<Entry>,
    entries1: Seq<Entry>,
    path: Seq<char>,
    data: Seq<u8>,
    now_secs: i64,
) -> bool {
    &&& entries1.len() == entries0.len() + 1
    &&& forall|j: int| 0 <= j < entries0.len() ==> entries1[j] == entries0[j]
    &&& {
        let e = entries1[entries0.len() as int];
        &&& e.path@ == path
        &&& e.kind == FileKind::File
        &&& e.content@ == data
        &&& e.curr_version == 1
        &&& e.versions@.len() == 1
        &&& e.versions@[0].num == 1
        &&& e.versions@[0].content@ == data
        &&& e.versions@[0].created_at == now_secs
        &&& e.created_at == now_secs
        &&& e.modified_at == now_secs
    }
}

impl Bridge {
    /// Copies the content of one file to another path: the target receives
    /// the source's bytes as a committed version, created fresh where it
    /// did not exist.  Copying a file onto itself changes nothing.
    pub fn repo_copy(&mut self, token: usize, from: &str, to: &str, now: Timestamp) -> (r: Result<
        (),
        BridgeError,
    >)
        requires
            old(self).wf(),
            now.secs <= i64::MAX,
        ensures
            final(self).wf(),
            final(self).table.slots@ == old(self).table.slots@,
            match resolve_repo_spec(*old(self), token) {
                Ok(hs) => {
                    let entries0 = hs.1.data.entries@;
                    if !spec_path_rooted(from@) || !spec_path_rooted(to@) {
                        r == Err::<(), BridgeError>(BridgeError::InvalidPath) && *final(self)
                            == *old(self)
                    } else if hs.0.read_only {
                        r == Err::<(), BridgeError>(BridgeError::ReadOnly) && *final(self) == *old(
                            self,
                        )
                    } else if from@ == seq!['/'] {
                        r == Err::<(), BridgeError>(BridgeError::NotFile) && *final(self) == *old(
                            self,
                        )
                    } else if !has_entry(entries0, from@) {
                        r == Err::<(), BridgeError>(BridgeError::NotFound) && *final(self) == *old(
                            self,
                        )
                    } else if entry_of(entries0, from@).kind == FileKind::Dir {
                        r == Err::<(), BridgeError>(BridgeError::NotFile) && *final(self) == *old(
                            self,
                        )
                    } else if from@ == to@ {
                        r == Ok::<(), BridgeError>(()) && *final(self) == *old(self)
                    } else if to@ == seq!['/'] {
                        r == Err::<(), BridgeError>(BridgeError::NotFile) && *final(self) == *old(
                            self,
                        )
                    } else if has_entry(entries0, to@) && entry_of(entries0, to@).kind
                        == FileKind::Dir {
                        r == Err::<(), BridgeError>(BridgeError::NotFile) && *final(self) == *old(
                            self,
                        )
                    } else if has_entry(entries0, to@) && entry_of(entries0, to@).curr_version
                        == u64::MAX {
                        r == Err::<(), BridgeError>(BridgeError::InvalidArgument) && *final(self)
                            == *old(self)
                    } else {
                        &&& r == Ok::<(), BridgeError>(())
                        &&& crate::open_ops::repos_with_entries(
                            old(self).repos@,
                            final(self).repos@,
                            hs.0.repo_idx,
                            final(self).repos@[hs.0.repo_idx as int]->0.data.entries@,
                        )
                        &&& (has_entry(entries0, to@) ==> entries_committed(
                            entries0,
                            final(self).repos@[hs.0.repo_idx as int]->0.data.entries@,
                            to@,
                            entry_of(entries0, from@).content@,
                            now.secs as i64,
                        ))
                        &&& (!has_entry(entries0, to@) ==> entries_plus_copied(
                            entries0,
                            final(self).repos@[hs.0.repo_idx as int]->0.data.entries@,
                            to@,
                            entry_of(entries0, from@).content@,
                            now.secs as i64,
                        ))
                    }
                },
                Err(e) => r == Err::<(), BridgeError>(e) && *final(self) == *old(self),
            },
    {
        let ri = match self.resolve_repo(token) {
            Ok(ri) => ri,
            Err(e) => return Err(e),
        };
        if !path_is_rooted(from) || !path_is_rooted(to) {
            return Err(BridgeError::InvalidPath);
        }
        let read_only = match self.get_repo(token) {
            Ok(h) => h.read_only,
            Err(e) => return Err(e),
        };
        if read_only {
            return Err(BridgeError::ReadOnly);
        }
        if from.unicode_len() == 1 {
            proof {
                assert(from@ =~= seq!['/']);
            }
            return Err(BridgeError::NotFile);
        }
        proof {
            assert(self.repos@[ri as int] matches Some(st) ==> paths_unique(st.data.entries@));
        }
        // the source must be a file; take a copy of its bytes
        let data: Vec<u8> = match &self.repos[ri] {
            Some(store) => {
                match crate::store::find_entry(&store.data.entries, from) {
                    Some(j) => {
                        proof {
                            lemma_entry_at(store.data.entries@, j as int);
                        }
                        match store.data.entries[j].kind {
                            FileKind::Dir => {
                                return Err(BridgeError::NotFile);
                            },
                            FileKind::File => vstd::slice::slice_to_vec(
                                store.data.entries[j].content.as_slice(),
                            ),
                        }
                    },
                    None => {
                        return Err(BridgeError::NotFound);
                    },
                }
            },
            None => {
                return Err(BridgeError::NotFound);
            },
        };
        if crate::values::str_eq(from, to) {
            return Ok(());
        }
        if to.unicode_len() == 1 {
            proof {
                assert(to@ =~= seq!['/']);
            }
            return Err(BridgeError::NotFile);
        }
        let now_secs = crate::time_to_secs(now);
        let target = match &self.repos[ri] {
            Some(store) => crate::store::find_entry(&store.data.entries, to),
            None => None,
        };
        let ghost entries0 = self.repos@[ri as int]->0.data.entries@;
        match target {
            Some(j) => {
                proof {
                    lemma_entry_at(entries0, j as int);
                }
                let (kind, cv) = match &self.repos[ri] {
                    Some(store) => (store.data.entries[j].kind, store.data.entries[j].curr_version),
                    None => (FileKind::Dir, 0),
                };
                match kind {
                    FileKind::Dir => {
                        return Err(BridgeError::NotFile);
                    },
                    FileKind::File => {},
                }
                if cv == u64::MAX {
                    return Err(BridgeError::InvalidArgument);
                }
                let snapshot = vstd::slice::slice_to_vec(data.as_slice());
                match &mut self.repos[ri] {
                    Some(store) => {
                        let e = &mut store.data.entries[j];
                        e.content = data;
                        e.curr_version = cv + 1;
                        e.versions.push(
                            VersionData { num: cv + 1, content: snapshot, created_at: now_secs },
                        );
                        e.modified_at = now_secs;
                    },
                    None => {},
                }
                proof {
                    lemma_update_entry(
                        entries0,
                        j as int,
                        self.repos@[ri as int]->0.data.entries@[j as int],
                    );
                    lemma_update_repo(old(self).repos@, ri as int, self.repos@[ri as int]);
                }
                Ok(())
            },
            None => {
                let snapshot = vstd::slice::slice_to_vec(data.as_slice());
                let mut versions: Vec<VersionData> = Vec::new();
                versions.push(VersionData { num: 1, content: snapshot, created_at: now_secs });
                let e = Entry {
                    path: String::from_str(to),
                    kind: FileKind::File,
                    content: data,
                    curr_version: 1,
                    versions,
                    created_at: now_secs,
                    modified_at: now_secs,
                };
                match &mut self.repos[ri] {
                    Some(store) => {
                        proof {
                            lemma_push_entry(store.data.entries@, e);
                        }
                        store.data.entries.push(e);
                    },
                    None => {},
                }
                proof {
                    lemma_update_repo(old(self).repos@, ri as int, self.repos@[ri as int]);
                }
                Ok(())
            },
        }
    }
}

/// The path an entry within `from` carries after the subtree moves under
/// `to`: `to` itself for the subtree root, otherwise `to` followed by the
/// path's remainder below `from`.
pub open spec fn spec_renamed(from: Seq<char>, to: Seq<char>, p: Seq<char>) -> Seq<char> {
    if p == from {
        to
    } else {
        to + p.skip(from.len() as int)
    }
}

/// Moving distinct paths of one subtree yields distinct paths.
proof fn lemma_renamed_distinct(from: Seq<char>, to: Seq<char>, p1: Seq<char>, p2: Seq<char>)
    requires
        spec_path_rooted(from),
        from != seq!['/'],
        spec_within(from, p1),
        spec_within(from, p2),
        p1 != p2,
    ensures
        spec_renamed(from, to, p1) != spec_renamed(from, to, p2),
{
    let base = spec_child_base(from);
    if p1 == from {
        assert(p2.len() > base.len());
        assert(spec_renamed(from, to, p2).len() > to.len());
    } else if p2 == from {
        assert(p1.len() > base.len());
        assert(spec_renamed(from, to, p1).len() > to.len());
    } else {
        let s1 = p1.skip(from.len() as int);
        let s2 = p2.skip(from.len() as int);
        if to + s1 == to + s2 {
            assert((to + s1).len() == (to + s2).len());
            assert forall|i: int| 0 <= i < s1.len() implies s1[i] == s2[i] by {
                assert((to + s1)[to.len() + i] == s1[i]);
                assert((to + s2)[to.len() + i] == s2[i]);
            }
            assert(s1 =~= s2);
            assert(p1 =~= p2) by {
                assert(forall|i: int|
                    0 <= i < from.len() ==> p1[i] == base[i] && p2[i] == base[i]) by {
                    assert(forall|i: int|
                        0 <= i < base.len() ==> p1[i] == #[trigger] p1.subrange(
                            0,
                            base.len() as int,
                        )[i] && p2[i] == p2.subrange(0, base.len() as int)[i]);
                }
                assert(forall|i: int|
                    from.len() <= i < p1.len() ==> #[trigger] p1[i] == s1[i - from.len()]);
                assert(forall|i: int|
                    from.len() <= i < p2.len() ==> #[trigger] p2[i] == s2[i - from.len()]);
            }
        }
    }
}

/// A moved path lies within the target directory.
proof fn lemma_renamed_within(from: Seq<char>, to: Seq<char>, p: Seq<char>)
    requires
        spec_path_rooted(from),
        from != seq!['/'],
        spec_path_rooted(to),
        to != seq!['/'],
        spec_within(from, p),
    ensures
        spec_within(to, spec_renamed(from, to, p)),
{
    if p == from {
    } else {
        let base = spec_child_base(from);
        let s = p.skip(from.len() as int);
        let r = to + s;
        assert(p[from.len() as int] == base[from.len() as int]) by {
            assert(p.subrange(0, base.len() as int)[from.len() as int] == p[from.len() as int]);
        }
        assert(s[0] == '/');
        let tbase = spec_child_base(to);
        assert(r.len() > tbase.len());
        assert(r.subrange(0, tbase.len() as int) =~= tbase) by {
            assert(forall|i: int| 0 <= i < to.len() ==> #[trigger] r[i] == to[i]);
            assert(r[to.len() as int] == s[0]);
        }
    }
}

/// With distinct original paths, none of them within the target, a partial
/// in-place move keeps every path distinct.
proof fn lemma_rename_unique(
    entries0: Seq<Entry>,
    cur: Seq<Entry>,
    from: Seq<char>,
    to: Seq<char>,
    j: int,
)
    requires
        paths_unique(entries0),
        cur.len() == entries0.len(),
        spec_path_rooted(from),
        from != seq!['/'],
        spec_path_rooted(to),
        to != seq!['/'],
        forall|k: int| 0 <= k < entries0.len() ==> !spec_within(to, #[trigger] entries0[k].path@),
        forall|k: int|
            0 <= k <= j && k < cur.len() ==> (#[trigger] cur[k].path@) == (
            if spec_within(from, entries0[k].path@) {
                spec_renamed(from, to, entries0[k].path@)
            } else {
                entries0[k].path@
            }),
        forall|k: int| j < k < cur.len() ==> (#[trigger] cur[k].path@) == entries0[k].path@,
    ensures
        paths_unique(cur),
{
    assert forall|a: int, b: int| 0 <= a < b < cur.len() implies cur[a].path@ != cur[b].path@ by {
        let pa = entries0[a].path@;
        let pb = entries0[b].path@;
        let ra = a <= j && spec_within(from, pa);
        let rb = b <= j && spec_within(from, pb);
        if ra && rb {
            lemma_renamed_distinct(from, to, pa, pb);
        } else if ra {
            lemma_renamed_within(from, to, pa);
        } else if rb {
            lemma_renamed_within(from, to, pb);
        }
    }
}

impl Bridge {
    /// Renames an entry, carrying everything within it along: every path
    /// in the moved subtree is rewritten under the target path, which must
    /// name nothing yet.
    pub fn repo_rename(&mut self, token: usize, from: &str, to: &str) -> (r: Result<
        (),
        BridgeError,
    >)
        requires
            old(self).wf(),
        ensures
            final(self).wf(),
            final(self).table.slots@ == old(self).table.slots@,
            match resolve_repo_spec(*old(self), token) {
                Ok(hs) => {
                    let entries0 = hs.1.data.entries@;
                    if !spec_path_rooted(from@) || !spec_path_rooted(to@) {
                        r == Err::<(), BridgeError>(BridgeError::InvalidPath) && *final(self)
                            == *old(self)
                    } else if hs.0.read_only {
                        r == Err::<(), BridgeError>(BridgeError::ReadOnly) && *final(self) == *old(
                            self,
                        )
                    } else if from@ == seq!['/'] {
                        r == Err::<(), BridgeError>(BridgeError::IsRoot) && *final(self) == *old(
                            self,
                        )
                    } else if !has_entry(entries0, from@) {
                        r == Err::<(), BridgeError>(BridgeError::NotFound) && *final(self) == *old(
                            self,
                        )
                    } else if from@ == to@ {
                        r == Ok::<(), BridgeError>(()) && *final(self) == *old(self)
                    } else if to@ == seq!['/'] {
                        r == Err::<(), BridgeError>(BridgeError::IsRoot) && *final(self) == *old(
                            self,
                        )
                    } else if exists|k: int|
                        0 <= k < entries0.len() && spec_within(
                            to@,
                            (#[trigger] entries0[k]).path@,
                        ) {
                        r == Err::<(), BridgeError>(BridgeError::AlreadyExists) && *final(self)
                            == *old(self)
                    } else {
                        &&& r == Ok::<(), BridgeError>(())
                        &&& crate::open_ops::repos_with_entries(
                            old(self).repos@,
                            final(self).repos@,
                            hs.0.repo_idx,
                            final(self).repos@[hs.0.repo_idx as int]->0.data.entries@,
                        )
                        &&& {
                            let entries1 =
                                final(self).repos@[hs.0.repo_idx as int]->0.data.entries@;
                            &&& entries1.len() == entries0.len()
                            &&& (forall|k: int|
                                0 <= k < entries0.len() && !spec_within(
                                    from@,
                                    entries0[k].path@,
                                ) ==> entries1[k] == entries0[k])
                            &&& (forall|k: int|
                                0 <= k < entries0.len() && spec_within(
                                    from@,
                                    entries0[k].path@,
                                ) ==> {
                                    let e0 = entries0[k];
                                    let e1 = #[trigger] entries1[k];
                                    &&& e1.path@ == spec_renamed(from@, to@, e0.path@)
                                    &&& e1.kind == e0.kind
                                    &&& e1.content == e0.content
                                    &&& e1.curr_version == e0.curr_version
                                    &&& e1.versions == e0.versions
                                    &&& e1.created_at == e0.created_at
                                    &&& e1.modified_at == e0.modified_at
                                })
                        }
                    }
                },
                Err(e) => r == Err::<(), BridgeError>(e) && *final(self) == *old(self),
            },
    {
        let ri = match self.resolve_repo(token) {
            Ok(ri) => ri,
            Err(e) => return Err(e),
        };
        if !path_is_rooted(from) || !path_is_rooted(to) {
            return Err(BridgeError::InvalidPath);
        }
        let read_only = match self.get_repo(token) {
            Ok(h) => h.read_only,
            Err(e) => return Err(e),
        };
        if read_only {
            return Err(BridgeError::ReadOnly);
        }
        let from_len = from.unicode_len();
        if from_len == 1 {
            proof {
                assert(from@ =~= seq!['/']);
            }
            return Err(BridgeError::IsRoot);
        }
        proof {
            assert(self.repos@[ri as int] matches Some(st) ==> paths_unique(st.data.entries@));
        }
        let found = match &self.repos[ri] {
            Some(store) => crate::store::find_entry(&store.data.entries, from).is_some(),
            None => {
                return Err(BridgeError::NotFound);
            },
        };
        if !found {
            return Err(BridgeError::NotFound);
        }
        proof {
            assert(has_entry(self.repos@[ri as int]->0.data.entries@, from@));
        }
        if crate::values::str_eq(from, to) {
            return Ok(());
        }
        if to.unicode_len() == 1 {
            proof {
                assert(to@ =~= seq!['/']);
            }
            return Err(BridgeError::IsRoot);
        }
        // nothing may stand at or below the target
        let blocked = match &self.repos[ri] {
            Some(store) => find_entry_within_or_eq(&store.data.entries, to),
            None => None,
        };
        if blocked.is_some() {
            return Err(BridgeError::AlreadyExists);
        }
        let n_entries = match &self.repos[ri] {
            Some(store) => store.data.entries.len(),
            None => 0,
        };
        let ghost entries0 = self.repos@[ri as int]->0.data.entries@;
        let mut j: usize = 0;
        while j < n_entries
            invariant
                j <= n_entries,
                self.wf(),
                old(self).wf(),
                self.table.slots@ == old(self).table.slots@,
                ri < self.repos@.len(),
                self.repos@[ri as int] is Some,
                old(self).repos@[ri as int] is Some,
                entries0 == old(self).repos@[ri as int]->0.data.entries@,
                n_entries == entries0.len(),
                paths_unique(entries0),
                spec_path_rooted(from@),
                from@ != seq!['/'],
                spec_path_rooted(to@),
                to@ != seq!['/'],
                from_len == from@.len(),
                forall|k: int|
                    0 <= k < entries0.len() ==> !spec_within(to@, #[trigger] entries0[k].path@),
                crate::open_ops::repos_with_entries(
                    old(self).repos@,
                    self.repos@,
                    ri,
                    self.repos@[ri as int]->0.data.entries@,
                ),
                ({
                    let cur = self.repos@[ri as int]->0.data.entries@;
                    &&& cur.len() == entries0.len()
                    &&& (forall|k: int|
                        0 <= k < j && !spec_within(from@, entries0[k].path@) ==> #[trigger] cur[k]
                            == entries0[k])
                    &&& (forall|k: int|
                        0 <= k < j && spec_within(from@, entries0[k].path@) ==> {
                            let e0 = entries0[k];
                            let e1 = #[trigger] cur[k];
                            &&& e1.path@ == spec_renamed(from@, to@, e0.path@)
                            &&& e1.kind == e0.kind
                            &&& e1.content == e0.content
                            &&& e1.curr_version == e0.curr_version
                            &&& e1.versions == e0.versions
                            &&& e1.created_at == e0.created_at
                            &&& e1.modified_at == e0.modified_at
                        })
                    &&& (forall|k: int| j <= k < cur.len() ==> #[trigger] cur[k] == entries0[k])
                }),
            decreases n_entries - j,
        {
            let ghost pre = self.repos@[ri as int]->0.data.entries@;
            match &mut self.repos[ri] {
                Some(store) => {
                    let e = &mut store.data.entries[j];
                    if is_within(from, e.path.as_str()) {
                        let newp = if crate::values::str_eq(e.path.as_str(), from) {
                            String::from_str(to)
                        } else {
                            let pl = e.path.as_str().unicode_len();
                            proof {
                                assert(e.path@.len() > spec_child_base(from@).len());
                            }
                            String::from_str(to).concat(
                                e.path.as_str().substring_char(from_len, pl),
                            )
                        };
                        e.path = newp;
                    }
                },
                None => {},
            }
            proof {
                let cur = self.repos@[ri as int]->0.data.entries@;
                lemma_rename_unique(entries0, cur, from@, to@, j as int);
                assert(self.repos@ =~= old(self).repos@.update(
                    ri as int,
                    self.repos@[ri as int],
                ));
                lemma_update_repo(old(self).repos@, ri as int, self.repos@[ri as int]);
            }
            j += 1;
        }
        Ok(())
    }
}

/// One copied entry: the source's path moved under the target, the
/// source's kind and bytes, a fresh version chain (one committed version
/// for a file, none for a directory), stamped with the copy time.
pub open spec fn spec_copied_entry(
    c: Entry,
    f: Entry,
    from: Seq<char>,
    to: Seq<char>,
    now_secs: i64,
) -> bool {
    &&& c.path@ == spec_renamed(from, to, f.path@)
    &&& c.kind == f.kind
    &&& c.content@ == f.content@
    &&& (f.kind == FileKind::File ==> c.curr_version == 1 && c.versions@.len() == 1
        && c.versions@[0].num == 1 && c.versions@[0].content@ == f.content@
        && c.versions@[0].created_at == now_secs)
    &&& (f.kind == FileKind::Dir ==> c.curr_version == 0 && c.versions@.len() == 0)
    &&& c.created_at == now_secs
    &&& c.modified_at == now_secs
}

/// Appending copies of one subtree under a free target keeps paths unique.
proof fn lemma_copies_unique(
    entries0: Seq<Entry>,
    copies: Seq<Entry>,
    from: Seq<char>,
    to: Seq<char>,
)
    requires
        paths_unique(entries0),
        spec_path_rooted(from),
        from != seq!['/'],
        spec_path_rooted(to),
        to != seq!['/'],
        forall|k: int| 0 <= k < entries0.len() ==> !spec_within(to, #[trigger] entries0[k].path@),
        copies.len() == entries0.filter(|e: Entry| spec_within(from, e.path@)).len(),
        forall|i: int|
            0 <= i < copies.len() ==> (#[trigger] copies[i]).path@ == spec_renamed(
                from,
                to,
                entries0.filter(|e: Entry| spec_within(from, e.path@))[i].path@,
            ),
    ensures
        paths_unique(entries0 + copies),
{
    let pred = |e: Entry| spec_within(from, e.path@);
    let filtered = entries0.filter(pred);
    crate::repo_tree::lemma_filter_entries(entries0, pred);
    let t = entries0 + copies;
    assert forall|a: int, b: int| 0 <= a < b < t.len() implies t[a].path@ != t[b].path@ by {
        if b < entries0.len() {
            assert(t[a] == entries0[a] && t[b] == entries0[b]);
        } else if a >= entries0.len() {
            let ia = a - entries0.len();
            let ib = b - entries0.len();
            entries0.lemma_filter_pred(pred, ia);
            entries0.lemma_filter_pred(pred, ib);
            assert(filtered[ia].path@ != filtered[ib].path@);
            lemma_renamed_distinct(from, to, filtered[ia].path@, filtered[ib].path@);
            assert(t[a] == copies[ia] && t[b] == copies[ib]);
        } else {
            let ib = b - entries0.len();
            entries0.lemma_filter_pred(pred, ib);
            lemma_renamed_within(from, to, filtered[ib].path@);
            assert(t[a] == entries0[a] && t[b] == copies[ib]);
        }
    }
}

impl Bridge {
    /// Copies a directory together with everything within it: every entry
    /// of the subtree reappears under the target path with the source's
    /// bytes and a fresh version chain.  The target must name nothing yet.
    pub fn repo_copy_dir_all(&mut self, token: usize, from: &str, to: &str, now: Timestamp) -> (r:
        Result<(), BridgeError>)
        requires
            old(self).wf(),
            now.secs <= i64::MAX,
        ensures
            final(self).wf(),
            final(self).table.slots@ == old(self).table.slots@,
            match resolve_repo_spec(*old(self), token) {
                Ok(hs) => {
                    let entries0 = hs.1.data.entries@;
                    if !spec_path_rooted(from@) || !spec_path_rooted(to@) {
                        r == Err::<(), BridgeError>(BridgeError::InvalidPath) && *final(self)
                            == *old(self)
                    } else if hs.0.read_only {
                        r == Err::<(), BridgeError>(BridgeError::ReadOnly) && *final(self) == *old(
                            self,
                        )
                    } else if from@ == seq!['/'] {
                        r == Err::<(), BridgeError>(BridgeError::IsRoot) && *final(self) == *old(
                            self,
                        )
                    } else if !has_entry(entries0, from@) {
                        r == Err::<(), BridgeError>(BridgeError::NotFound) && *final(self) == *old(
                            self,
                        )
                    } else if entry_of(entries0, from@).kind == FileKind::File {
                        r == Err::<(), BridgeError>(BridgeError::NotDir) && *final(self) == *old(
                            self,
                        )
                    } else if from@ == to@ {
                        r == Ok::<(), BridgeError>(()) && *final(self) == *old(self)
                    } else if to@ == seq!['/'] {
                        r == Err::<(), BridgeError>(BridgeError::IsRoot) && *final(self) == *old(
                            self,
                        )
                    } else if exists|k: int|
                        0 <= k < entries0.len() && spec_within(
                            to@,
                            (#[trigger] entries0[k]).path@,
                        ) {
                        r == Err::<(), BridgeError>(BridgeError::AlreadyExists) && *final(self)
                            == *old(self)
                    } else {
                        &&& r == Ok::<(), BridgeError>(())
                        &&& crate::open_ops::repos_with_entries(
                            old(self).repos@,
                            final(self).repos@,
                            hs.0.repo_idx,
                            final(self).repos@[hs.0.repo_idx as int]->0.data.entries@,
                        )
                        &&& {
                            let entries1 =
                                final(self).repos@[hs.0.repo_idx as int]->0.data.entries@;
                            let filtered = entries0.filter(
                                |e: Entry| spec_within(from@, e.path@),
                            );
                            &&& entries1.len() == entries0.len() + filtered.len()
                            &&& (forall|k: int|
                                0 <= k < entries0.len() ==> entries1[k] == entries0[k])
                            &&& (forall|i: int|
                                0 <= i < filtered.len() ==> spec_copied_entry(
                                    #[trigger] entries1[entries0.len() + i],
                                    filtered[i],
                                    from@,
                                    to@,
                                    now.secs as i64,
                                ))
                        }
                    }
                },
                Err(e) => r == Err::<(), BridgeError>(e) && *final(self) == *old(self),
            },
    {
        let ri = match self.resolve_repo(token) {
            Ok(ri) => ri,
            Err(e) => return Err(e),
        };
        if !path_is_rooted(from) || !path_is_rooted(to) {
            return Err(BridgeError::InvalidPath);
        }
        let read_only = match self.get_repo(token) {
            Ok(h) => h.read_only,
            Err(e) => return Err(e),
        };
        if read_only {
            return Err(BridgeError::ReadOnly);
        }
        let from_len = from.unicode_len();
        if from_len == 1 {
            proof {
                assert(from@ =~= seq!['/']);
            }
            return Err(BridgeError::IsRoot);
        }
        proof {
            assert(self.repos@[ri as int] matches Some(st) ==> paths_unique(st.data.entries@));
        }
        match &self.repos[ri] {
            Some(store) => {
                match crate::store::find_entry(&store.data.entries, from) {
                    Some(j) => {
                        proof {
                            lemma_entry_at(store.data.entries@, j as int);
                        }
                        match store.data.entries[j].kind {
                            FileKind::File => {
                                return Err(BridgeError::NotDir);
                            },
                            FileKind::Dir => {},
                        }
                    },
                    None => {
                        return Err(BridgeError::NotFound);
                    },
                }
            },
            None => {
                return Err(BridgeError::NotFound);
            },
        }
        if crate::values::str_eq(from, to) {
            return Ok(());
        }
        if to.unicode_len() == 1 {
            proof {
                assert(to@ =~= seq!['/']);
            }
            return Err(BridgeError::IsRoot);
        }
        let blocked = match &self.repos[ri] {
            Some(store) => find_entry_within_or_eq(&store.data.entries, to),
            None => None,
        };
        if blocked.is_some() {
            return Err(BridgeError::AlreadyExists);
        }
        let now_secs = crate::time_to_secs(now);
        let ghost entries0 = self.repos@[ri as int]->0.data.entries@;
        let mut copies: Vec<Entry> = match &self.repos[ri] {
            Some(store) => build_copies(&store.data.entries, from, to, from_len, now_secs),
            None => Vec::new(),
        };
        proof {
            lemma_copies_unique(entries0, copies@, from@, to@);
        }
        match &mut self.repos[ri] {
            Some(store) => {
                store.data.entries.append(&mut copies);
            },
            None => {},
        }
        proof {
            lemma_update_repo(old(self).repos@, ri as int, self.repos@[ri as int]);
        }
        Ok(())
    }
}

/// Builds the copies of every entry within a directory, moved under the
/// target path and stamped with the copy time, in store order.
fn build_copies(entries: &Vec<Entry>, from: &str, to: &str, from_len: usize, now_secs: i64) -> (r:
    Vec<Entry>)
    requires
        spec_path_rooted(from@),
        from@ != seq!['/'],
        from_len == from@.len(),
    ensures
        r@.len() == entries@.filter(|e: Entry| spec_within(from@, e.path@)).len(),
        forall|i: int|
            0 <= i < r@.len() ==> spec_copied_entry(
                #[trigger] r@[i],
                entries@.filter(|e: Entry| spec_within(from@, e.path@))[i],
                from@,
                to@,
                now_secs,
            ),
{
    let ghost pred = |e: Entry| spec_within(from@, e.path@);
    let n = entries.len();
    let mut r: Vec<Entry> = Vec::new();
    let mut i: usize = 0;
    proof {
        assert(entries@.take(0int) =~= Seq::<Entry>::empty());
        reveal(Seq::filter);
    }
    while i < n
        invariant
            i <= n,
            n == entries@.len(),
            spec_path_rooted(from@),
            from@ != seq!['/'],
            from_len == from@.len(),
            pred == (|e: Entry| spec_within(from@, e.path@)),
            r@.len() == entries@.take(i as int).filter(pred).len(),
            forall|k: int|
                0 <= k < r@.len() ==> spec_copied_entry(
                    #[trigger] r@[k],
                    entries@.take(i as int).filter(pred)[k],
                    from@,
                    to@,
                    now_secs,
                ),
        decreases n - i,
    {
        proof {
            assert(entries@.take(i + 1int) =~= entries@.take(i as int).push(entries@[i as int]));
            lemma_filter_push(entries@.take(i as int), entries@[i as int], pred);
        }
        let e = &entries[i];
        if is_within(from, e.path.as_str()) {
            let newp = if crate::values::str_eq(e.path.as_str(), from) {
                String::from_str(to)
            } else {
                let pl = e.path.as_str().unicode_len();
                proof {
                    assert(e.path@.len() > spec_child_base(from@).len());
                }
                String::from_str(to).concat(e.path.as_str().substring_char(from_len, pl))
            };
            let content = vstd::slice::slice_to_vec(e.content.as_slice());
            let c = match e.kind {
                FileKind::File => {
                    let snapshot = vstd::slice::slice_to_vec(e.content.as_slice());
                    let mut versions: Vec<VersionData> = Vec::new();
                    versions.push(
                        VersionData { num: 1, content: snapshot, created_at: now_secs },
                    );
                    Entry {
                        path: newp,
                        kind: FileKind::File,
                        content,
                        curr_version: 1,
                        versions,
                        created_at: now_secs,
                        modified_at: now_secs,
                    }
                },
                FileKind::Dir => Entry {
                    path: newp,
                    kind: FileKind::Dir,
                    content,
                    curr_version: 0,
                    versions: Vec::new(),
                    created_at: now_secs,
                    modified_at: now_secs,
                },
            };
            r.push(c);
        }
        i += 1;
    }
    proof {
        assert(entries@.take(n as int) =~= entries@);
    }
    r
}

/// Finds an entry at or below a directory, if any.
fn find_entry_within_or_eq(entries: &Vec<Entry>, dir: &str) -> (r: Option<usize>)
    requires
        spec_path_rooted(dir@),
    ensures
        match r {
            Some(j) => j < entries@.len() && spec_within(dir@, entries@[j as int].path@),
            None => forall|k: int|
                0 <= k < entries@.len() ==> !spec_within(dir@, (#[trigger] entries@[k]).path@),
        },
{
    let n = entries.len();
    let mut i: usize = 0;
    while i < n
        invariant
            i <= n,
            n == entries@.len(),
            spec_path_rooted(dir@),
            forall|k: int| 0 <= k < i ==> !spec_within(dir@, (#[trigger] entries@[k]).path@),
        decreases n - i,
    {
        if is_within(dir, entries[i].path.as_str()) {
            return Some(i);
        }
        i += 1;
    }
    None
}

} // verus!
