//! The bridged store's state: repositories persisted per location, each a
//! flat collection of entries keyed by rooted path, with a version chain
//! per file.  The bridge drives this state on behalf of the managed side.

use vstd::prelude::*;
use crate::values::{Cipher, FileKind, MemLimit, OpsLimit};

verus! {

/// One committed historical version of a file, with its full content.
pub struct VersionData {
    pub num: u64,
    pub content: Vec<u8>,
    pub created_at: i64,
}

/// One item of a repository: a file with its working content and version
/// chain, or a directory.
pub struct Entry {
    /// The rooted path of the item.
    pub path: String,
    pub kind: FileKind,
    /// The current working content; empty for directories.
    pub content: Vec<u8>,
    /// The number of the newest committed version; zero before the first
    /// commit.
    pub curr_version: u64,
    /// The committed versions, oldest first.
    pub versions: Vec<VersionData>,
    pub created_at: i64,
    pub modified_at: i64,
}

/// The persistent state of one repository.
pub struct RepoData {
    pub volume_id: Vec<u8>,
    pub ops_limit: OpsLimit,
    pub mem_limit: MemLimit,
    pub cipher: Cipher,
    pub compress: bool,
    pub version_limit: u8,
    pub dedup_chunk: bool,
    pub created_at: i64,
    pub entries: Vec<Entry>,
}

/// One repository at its location, guarded by its password.
pub struct RepoStore {
    pub uri: String,
    pub password: String,
    pub data: RepoData,
}

/// Whether some entry carries the given path.
pub open spec fn has_entry(s: Seq<Entry>, p: Seq<char>) -> bool {
    exists|i: int| 0 <= i < s.len() && s[i].path@ == p
}

/// The index of the entry carrying the given path; meaningful when the
/// path is present and paths are unique.
pub open spec fn entry_idx(s: Seq<Entry>, p: Seq<char>) -> int {
    choose|i: int| 0 <= i < s.len() && s[i].path@ == p
}

/// The entry carrying the given path.
pub open spec fn entry_of(s: Seq<Entry>, p: Seq<char>) -> Entry {
    s[entry_idx(s, p)]
}

/// Entry paths never repeat: each path names at most one entry.
pub open spec fn paths_unique(s: Seq<Entry>) -> bool {
    forall|i: int, j: int| 0 <= i < j < s.len() ==> s[i].path@ != s[j].path@
}

/// With unique paths, an entry found at some index is the entry of its path.
pub proof fn lemma_entry_at(s: Seq<Entry>, i: int)
    requires
        paths_unique(s),
        0 <= i < s.len(),
    ensures
        has_entry(s, s[i].path@),
        entry_idx(s, s[i].path@) == i,
        entry_of(s, s[i].path@) == s[i],
{
    assert(has_entry(s, s[i].path@));
    let j = entry_idx(s, s[i].path@);
    if i != j {
        assert(s[i].path@ != s[j].path@);
    }
}

/// Appending an entry under a fresh path keeps paths unique, makes that
/// path present, and leaves every other path's presence and entry as
/// they were.
pub proof fn lemma_push_entry(s: Seq<Entry>, e: Entry)
    requires
        paths_unique(s),
        !has_entry(s, e.path@),
    ensures
        paths_unique(s.push(e)),
        has_entry(s.push(e), e.path@),
        entry_of(s.push(e), e.path@) == e,
        forall|q: Seq<char>| q != e.path@ ==> has_entry(s.push(e), q) == has_entry(s, q),
        forall|q: Seq<char>|
            q != e.path@ && has_entry(s, q) ==> entry_of(s.push(e), q) == entry_of(s, q),
{
    let t = s.push(e);
    assert forall|i: int, j: int| 0 <= i < j < t.len() implies t[i].path@ != t[j].path@ by {
        if j == s.len() {
            assert(t[i] == s[i]);
            if t[i].path@ == e.path@ {
                assert(has_entry(s, e.path@));
            }
        }
    }
    assert(t[s.len() as int] == e);
    lemma_entry_at(t, s.len() as int);
    assert forall|q: Seq<char>| q != e.path@ implies has_entry(t, q) == has_entry(s, q) by {
        if has_entry(t, q) {
            let i = choose|i: int| 0 <= i < t.len() && t[i].path@ == q;
            assert(i < s.len() && s[i] == t[i]);
            assert(has_entry(s, q));
        }
        if has_entry(s, q) {
            let i = choose|i: int| 0 <= i < s.len() && s[i].path@ == q;
            assert(t[i] == s[i]);
            assert(has_entry(t, q));
        }
    }
    assert forall|q: Seq<char>| q != e.path@ && has_entry(s, q) implies entry_of(t, q) == entry_of(
        s,
        q,
    ) by {
        let i = entry_idx(s, q);
        assert(0 <= i < s.len() && s[i].path@ == q);
        assert(t[i] == s[i]);
        lemma_entry_at(t, i);
        lemma_entry_at(s, i);
    }
}

/// Replacing the entry at an index by one with the same path keeps paths
/// unique, keeps every path's presence, changes that path's entry to the
/// new one, and leaves every other path's entry as it was.
pub proof fn lemma_update_entry(s: Seq<Entry>, i: int, e: Entry)
    requires
        paths_unique(s),
        0 <= i < s.len(),
        e.path@ == s[i].path@,
    ensures
        paths_unique(s.update(i, e)),
        forall|q: Seq<char>| has_entry(s.update(i, e), q) == has_entry(s, q),
        entry_of(s.update(i, e), e.path@) == e,
        forall|q: Seq<char>|
            q != e.path@ && has_entry(s, q) ==> entry_of(s.update(i, e), q) == entry_of(s, q),
{
    let t = s.update(i, e);
    assert forall|a: int, b: int| 0 <= a < b < t.len() implies t[a].path@ != t[b].path@ by {
        assert(s[a].path@ != s[b].path@);
        assert(t[a].path@ == s[a].path@ && t[b].path@ == s[b].path@);
    }
    assert forall|q: Seq<char>| has_entry(t, q) == has_entry(s, q) by {
        if has_entry(t, q) {
            let a = choose|a: int| 0 <= a < t.len() && t[a].path@ == q;
            assert(s[a].path@ == t[a].path@);
            assert(has_entry(s, q));
        }
        if has_entry(s, q) {
            let a = choose|a: int| 0 <= a < s.len() && s[a].path@ == q;
            assert(t[a].path@ == s[a].path@);
            assert(has_entry(t, q));
        }
    }
    assert(t[i] == e);
    lemma_entry_at(t, i);
    assert forall|q: Seq<char>| q != e.path@ && has_entry(s, q) implies entry_of(t, q) == entry_of(
        s,
        q,
    ) by {
        let a = entry_idx(s, q);
        assert(0 <= a < s.len() && s[a].path@ == q);
        assert(a != i);
        assert(t[a] == s[a]);
        lemma_entry_at(t, a);
        lemma_entry_at(s, a);
    }
}

/// Removing the entry at an index keeps paths unique, makes its path
/// absent, and leaves every other path's presence and entry as they were.
pub proof fn lemma_remove_entry(s: Seq<Entry>, i: int)
    requires
        paths_unique(s),
        0 <= i < s.len(),
    ensures
        paths_unique(s.remove(i)),
        !has_entry(s.remove(i), s[i].path@),
        forall|q: Seq<char>| q != s[i].path@ ==> has_entry(s.remove(i), q) == has_entry(s, q),
        forall|q: Seq<char>|
            q != s[i].path@ && has_entry(s, q) ==> entry_of(s.remove(i), q) == entry_of(s, q),
{
    let t = s.remove(i);
    let p = s[i].path@;
    assert forall|a: int, b: int| 0 <= a < b < t.len() implies t[a].path@ != t[b].path@ by {
        let a0 = if a < i { a } else { a + 1 };
        let b0 = if b < i { b } else { b + 1 };
        assert(t[a] == s[a0] && t[b] == s[b0]);
        assert(s[a0].path@ != s[b0].path@);
    }
    assert forall|q: Seq<char>| q != p implies has_entry(t, q) == has_entry(s, q) by {
        if has_entry(t, q) {
            let a = choose|a: int| 0 <= a < t.len() && t[a].path@ == q;
            let a0 = if a < i { a } else { a + 1 };
            assert(t[a] == s[a0]);
            assert(has_entry(s, q));
        }
        if has_entry(s, q) {
            let a0 = choose|a: int| 0 <= a < s.len() && s[a].path@ == q;
            assert(a0 != i);
            let a = if a0 < i { a0 } else { a0 - 1 };
            assert(t[a] == s[a0]);
            assert(has_entry(t, q));
        }
    }
    if has_entry(t, p) {
        let a = choose|a: int| 0 <= a < t.len() && t[a].path@ == p;
        let a0 = if a < i { a } else { a + 1 };
        assert(t[a] == s[a0]);
        assert(a0 != i);
        assert(s[a0].path@ != s[i].path@);
    }
    assert forall|q: Seq<char>| q != p && has_entry(s, q) implies entry_of(t, q) == entry_of(
        s,
        q,
    ) by {
        let a0 = entry_idx(s, q);
        assert(0 <= a0 < s.len() && s[a0].path@ == q);
        assert(a0 != i);
        let a = if a0 < i { a0 } else { a0 - 1 };
        assert(t[a] == s[a0]);
        lemma_entry_at(t, a);
        lemma_entry_at(s, a0);
    }
}

/// Finds the entry carrying the given path.
pub fn find_entry(entries: &Vec<Entry>, path: &str) -> (r: Option<usize>)
    ensures
        match r {
            Some(i) => i < entries@.len() && entries@[i as int].path@ == path@,
            None => !has_entry(entries@, path@),
        },
{
    let n = entries.len();
    let mut i: usize = 0;
    while i < n
        invariant
            0 <= i <= n,
            n == entries@.len(),
            forall|j: int| 0 <= j < i ==> entries@[j].path@ != path@,
        decreases n - i,
    {
        if crate::values::str_eq(entries[i].path.as_str(), path) {
            return Some(i);
        }
        i += 1;
    }
    None
}

} // verus!
