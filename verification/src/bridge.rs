//! The bridge itself: the persisted repositories and the handle table.
//! Every boundary operation resolves the invoking object's token here,
//! drives the addressed resource, and reports a marshalled value or a
//! classified error.

use vstd::prelude::*;
use crate::error::BridgeError;
use crate::store::{paths_unique, RepoStore};
use crate::table::{slot_of, HandleTable, OpenerCfg, OptionsCfg, RepoHandle, Resource};
use crate::kind::ResourceKind;

verus! {

/// Whether this cell holds a live repository at the given location.
pub open spec fn is_repo_at(s: Option<RepoStore>, uri: Seq<char>) -> bool {
    s is Some && s->0.uri@ == uri
}

/// Whether some live repository sits at the given location.
pub open spec fn has_repo(rs: Seq<Option<RepoStore>>, uri: Seq<char>) -> bool {
    exists|i: int| 0 <= i < rs.len() && is_repo_at(#[trigger] rs[i], uri)
}

/// The index of the live repository at the given location; meaningful when
/// one is there and locations are unique.
pub open spec fn repo_idx_of(rs: Seq<Option<RepoStore>>, uri: Seq<char>) -> int {
    choose|i: int| 0 <= i < rs.len() && is_repo_at(#[trigger] rs[i], uri)
}

/// Live repositories never share a location.
pub open spec fn uris_unique(rs: Seq<Option<RepoStore>>) -> bool {
    forall|i: int, j: int|
        0 <= i < j < rs.len() ==> !(#[trigger] rs[i] is Some && #[trigger] rs[j] is Some
            && rs[i]->0.uri@ == rs[j]->0.uri@)
}

/// What a single slot must satisfy: an open repository or file addresses a
/// repository cell that exists.
pub open spec fn slot_wf(n_repos: int, s: Option<Resource>) -> bool {
    match s {
        Some(Resource::Repository(h)) => h.repo_idx < n_repos,
        Some(Resource::File(h)) => h.repo_idx < n_repos,
        _ => true,
    }
}

/// The whole state the bridge owns: every repository ever created at its
/// location (`None` once destroyed), and the handle table of live
/// resources.
pub struct Bridge {
    pub repos: Vec<Option<RepoStore>>,
    pub table: HandleTable,
}

impl Bridge {
    /// The bridge's invariant: repository locations are unique, entry
    /// paths inside each repository are unique, and every token held by
    /// the managed side addresses a repository cell that exists.
    pub open spec fn wf(&self) -> bool {
        &&& uris_unique(self.repos@)
        &&& forall|i: int|
            0 <= i < self.repos@.len() ==> (#[trigger] self.repos@[i] matches Some(r)
                ==> paths_unique(r.data.entries@))
        &&& forall|t: int|
            0 <= t < self.table.slots@.len() ==> slot_wf(
                self.repos@.len() as int,
                #[trigger] self.table.slots@[t],
            )
    }

    /// Returns a bridge with no repositories and no live resources.
    pub fn new() -> (b: Bridge)
        ensures
            b.wf(),
            b.repos@.len() == 0,
            b.table.slots@.len() == 0,
    {
        Bridge { repos: Vec::new(), table: HandleTable::new() }
    }

    /// Attaches a fresh builder resource at managed-object construction;
    /// see `HandleTable::attach`.
    pub fn attach(&mut self, kind: ResourceKind) -> (r: Option<usize>)
        requires
            old(self).wf(),
        ensures
            final(self).wf(),
            final(self).repos == old(self).repos,
            kind == ResourceKind::Opener ==> r == Some(old(self).table.slots@.len() as usize)
                && final(self).table.slots@ == old(self).table.slots@.push(
                Some(Resource::Opener(crate::table::spec_default_opener())),
            ),
            kind == ResourceKind::FileOptions ==> r == Some(old(self).table.slots@.len() as usize)
                && final(self).table.slots@ == old(self).table.slots@.push(
                Some(Resource::FileOptions(crate::table::spec_default_options())),
            ),
            kind != ResourceKind::Opener && kind != ResourceKind::FileOptions ==> r is None
                && final(self).table.slots@ == old(self).table.slots@,
    {
        self.table.attach(kind)
    }

    /// Detaches the resource a token addresses; the first call releases
    /// it, any further call on the same token changes nothing.  See
    /// `HandleTable::detach`.
    pub fn detach(&mut self, token: usize)
        requires
            old(self).wf(),
        ensures
            final(self).wf(),
            final(self).repos == old(self).repos,
            token < old(self).table.slots@.len() ==> final(self).table.slots@ == old(
                self,
            ).table.slots@.update(token as int, None),
            token >= old(self).table.slots@.len() ==> final(self).table.slots@ == old(
                self,
            ).table.slots@,
            slot_of(final(self).table.slots@, token) is None,
    {
        self.table.detach(token)
    }

    /// Resolves a token that must address an opener builder.
    pub fn get_opener(&self, token: usize) -> (r: Result<OpenerCfg, BridgeError>)
        ensures
            match r {
                Ok(cfg) => slot_of(self.table.slots@, token) == Some(Resource::Opener(cfg)),
                Err(e) => !(slot_of(self.table.slots@, token) matches Some(Resource::Opener(_)))
                    && e == (if slot_of(self.table.slots@, token) is None {
                    BridgeError::NoResourceAttached
                } else {
                    BridgeError::WrongResourceKind
                }),
            },
    {
        if token >= self.table.slots.len() {
            return Err(BridgeError::NoResourceAttached);
        }
        match &self.table.slots[token] {
            Some(Resource::Opener(cfg)) => Ok(*cfg),
            Some(_) => Err(BridgeError::WrongResourceKind),
            None => Err(BridgeError::NoResourceAttached),
        }
    }

    /// Resolves a token that must address a file-options builder.
    pub fn get_options(&self, token: usize) -> (r: Result<OptionsCfg, BridgeError>)
        ensures
            match r {
                Ok(cfg) => slot_of(self.table.slots@, token) == Some(Resource::FileOptions(cfg)),
                Err(e) => !(slot_of(self.table.slots@, token) matches Some(
                    Resource::FileOptions(_),
                )) && e == (if slot_of(self.table.slots@, token) is None {
                    BridgeError::NoResourceAttached
                } else {
                    BridgeError::WrongResourceKind
                }),
            },
    {
        if token >= self.table.slots.len() {
            return Err(BridgeError::NoResourceAttached);
        }
        match &self.table.slots[token] {
            Some(Resource::FileOptions(cfg)) => Ok(*cfg),
            Some(_) => Err(BridgeError::WrongResourceKind),
            None => Err(BridgeError::NoResourceAttached),
        }
    }

    /// Resolves a token that must address an open repository.
    pub fn get_repo(&self, token: usize) -> (r: Result<RepoHandle, BridgeError>)
        ensures
            match r {
                Ok(h) => slot_of(self.table.slots@, token) == Some(Resource::Repository(h)),
                Err(e) => !(slot_of(self.table.slots@, token) matches Some(
                    Resource::Repository(_),
                )) && e == (if slot_of(self.table.slots@, token) is None {
                    BridgeError::NoResourceAttached
                } else {
                    BridgeError::WrongResourceKind
                }),
            },
    {
        if token >= self.table.slots.len() {
            return Err(BridgeError::NoResourceAttached);
        }
        match &self.table.slots[token] {
            Some(Resource::Repository(h)) => Ok(*h),
            Some(_) => Err(BridgeError::WrongResourceKind),
            None => Err(BridgeError::NoResourceAttached),
        }
    }

    /// Resolves a token that must address an open file, handing back the
    /// handle's fields: repository cell, path, cursor, read and write
    /// intent.
    pub fn get_file(&self, token: usize) -> (r: Result<(usize, String, u64, bool, bool), BridgeError>)
        ensures
            match r {
                Ok(parts) => slot_of(self.table.slots@, token) matches Some(Resource::File(h))
                    && h.repo_idx == parts.0 && h.path == parts.1 && h.pos == parts.2 && h.read
                    == parts.3 && h.write == parts.4,
                Err(e) => !(slot_of(self.table.slots@, token) matches Some(Resource::File(_)))
                    && e == (if slot_of(self.table.slots@, token) is None {
                    BridgeError::NoResourceAttached
                } else {
                    BridgeError::WrongResourceKind
                }),
            },
    {
        if token >= self.table.slots.len() {
            return Err(BridgeError::NoResourceAttached);
        }
        match &self.table.slots[token] {
            Some(Resource::File(h)) => Ok((h.repo_idx, h.path.clone(), h.pos, h.read, h.write)),
            Some(_) => Err(BridgeError::WrongResourceKind),
            None => Err(BridgeError::NoResourceAttached),
        }
    }

    /// Finds the live repository at the given location.
    pub fn find_repo(&self, uri: &str) -> (r: Option<usize>)
        ensures
            match r {
                Some(i) => i < self.repos@.len() && is_repo_at(self.repos@[i as int], uri@),
                None => !has_repo(self.repos@, uri@),
            },
    {
        let n = self.repos.len();
        let mut i: usize = 0;
        while i < n
            invariant
                0 <= i <= n,
                n == self.repos@.len(),
                forall|j: int| 0 <= j < i ==> !is_repo_at(#[trigger] self.repos@[j], uri@),
            decreases n - i,
        {
            match &self.repos[i] {
                Some(store) => {
                    if crate::values::str_eq(store.uri.as_str(), uri) {
                        return Some(i);
                    }
                },
                None => {},
            }
            i += 1;
        }
        None
    }
}

/// With unique locations, a live repository found at some index is the
/// repository of its location.
pub proof fn lemma_repo_at(rs: Seq<Option<RepoStore>>, i: int)
    requires
        uris_unique(rs),
        0 <= i < rs.len(),
        rs[i] is Some,
    ensures
        has_repo(rs, rs[i]->0.uri@),
        repo_idx_of(rs, rs[i]->0.uri@) == i,
{
    let uri = rs[i]->0.uri@;
    assert(is_repo_at(rs[i], uri));
    assert(has_repo(rs, uri));
    let j = repo_idx_of(rs, uri);
    assert(is_repo_at(rs[j], uri));
    if i != j {
        assert(!(rs[i] is Some && rs[j] is Some && rs[i]->0.uri@ == rs[j]->0.uri@));
    }
}

/// Appending a live repository at a fresh location keeps locations unique
/// and leaves every other location's presence as it was.
pub proof fn lemma_push_repo(rs: Seq<Option<RepoStore>>, store: RepoStore)
    requires
        uris_unique(rs),
        !has_repo(rs, store.uri@),
    ensures
        uris_unique(rs.push(Some(store))),
        has_repo(rs.push(Some(store)), store.uri@),
        repo_idx_of(rs.push(Some(store)), store.uri@) == rs.len(),
        forall|u: Seq<char>|
            u != store.uri@ ==> has_repo(rs.push(Some(store)), u) == has_repo(rs, u),
{
    let t = rs.push(Some(store));
    assert forall|i: int, j: int| 0 <= i < j < t.len() implies !(t[i] is Some && t[j] is Some
        && t[i]->0.uri@ == t[j]->0.uri@) by {
        if j == rs.len() {
            assert(t[i] == rs[i]);
            if t[i] is Some && t[i]->0.uri@ == store.uri@ {
                assert(is_repo_at(rs[i], store.uri@));
                assert(has_repo(rs, store.uri@));
            }
        }
    }
    assert(t[rs.len() as int] == Some(store));
    lemma_repo_at(t, rs.len() as int);
    assert forall|u: Seq<char>| u != store.uri@ implies has_repo(t, u) == has_repo(rs, u) by {
        if has_repo(t, u) {
            let i = choose|i: int| 0 <= i < t.len() && is_repo_at(#[trigger] t[i], u);
            assert(i < rs.len() && rs[i] == t[i]);
            assert(has_repo(rs, u));
        }
        if has_repo(rs, u) {
            let i = choose|i: int| 0 <= i < rs.len() && is_repo_at(#[trigger] rs[i], u);
            assert(t[i] == rs[i]);
            assert(is_repo_at(t[i], u));
            assert(has_repo(t, u));
        }
    }
}

/// Replacing the repository at an index by one at the same location, or by
/// nothing, keeps locations unique.
pub proof fn lemma_update_repo(rs: Seq<Option<RepoStore>>, i: int, v: Option<RepoStore>)
    requires
        uris_unique(rs),
        0 <= i < rs.len(),
        v is Some ==> rs[i] is Some && rs[i]->0.uri@ == v->0.uri@,
    ensures
        uris_unique(rs.update(i, v)),
{
    let t = rs.update(i, v);
    assert forall|a: int, b: int| 0 <= a < b < t.len() implies !(t[a] is Some && t[b] is Some
        && t[a]->0.uri@ == t[b]->0.uri@) by {
        if t[a] is Some && t[b] is Some && t[a]->0.uri@ == t[b]->0.uri@ {
            if a != i && b != i {
                assert(t[a] == rs[a] && t[b] == rs[b]);
            } else if a == i {
                assert(t[b] == rs[b]);
                assert(rs[a] is Some && rs[a]->0.uri@ == t[a]->0.uri@);
            } else {
                assert(t[a] == rs[a]);
                assert(rs[b] is Some && rs[b]->0.uri@ == t[b]->0.uri@);
            }
        }
    }
}

} // verus!
