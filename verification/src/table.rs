//! The handle table: every native resource a managed object drives is
//! owned here and addressed by an opaque token.  Builders are constructed
//! fresh at attach; the other kinds are bound as the output of an
//! operation.  Detaching releases the resource exactly once and is safe to
//! repeat.

use vstd::prelude::*;
use crate::kind::ResourceKind;
use crate::values::{Cipher, MemLimit, OpsLimit, Version};

verus! {

/// The configuration a repository opener accumulates before its terminal
/// open call.
#[derive(Clone, Copy, Debug, PartialEq, Eq, Structural)]
pub struct OpenerCfg {
    pub ops_limit: OpsLimit,
    pub mem_limit: MemLimit,
    pub cipher: Cipher,
    pub create: bool,
    pub create_new: bool,
    pub compress: bool,
    pub version_limit: u8,
    pub dedup_chunk: bool,
    pub read_only: bool,
    pub force: bool,
}

/// The configuration a file-options builder accumulates before its
/// terminal open call.
#[derive(Clone, Copy, Debug, PartialEq, Eq, Structural)]
pub struct OptionsCfg {
    pub read: bool,
    pub write: bool,
    pub append: bool,
    pub truncate: bool,
    pub create: bool,
    pub create_new: bool,
    pub version_limit: u8,
    pub dedup_chunk: bool,
}

/// An open repository: the index of its persisted state, and whether this
/// opening is read-only.
#[derive(Clone, Copy, Debug, PartialEq, Eq, Structural)]
pub struct RepoHandle {
    pub repo_idx: usize,
    pub read_only: bool,
}

/// An open file: where its entry lives, the handle's own cursor, and what
/// the handle was opened for.
pub struct FileHandle {
    pub repo_idx: usize,
    pub path: String,
    pub pos: u64,
    pub read: bool,
    pub write: bool,
}

/// A read-only cursor over the snapshot of one historical version.
pub struct ReaderHandle {
    pub version: Version,
    pub content: Vec<u8>,
    pub pos: u64,
}

/// A native resource owned by the bridge, tagged by its kind.
pub enum Resource {
    Opener(OpenerCfg),
    Repository(RepoHandle),
    FileOptions(OptionsCfg),
    File(FileHandle),
    VersionReader(ReaderHandle),
}

impl Resource {
    /// The kind this resource is tagged with.
    pub open spec fn kind(&self) -> ResourceKind {
        match self {
            Resource::Opener(_) => ResourceKind::Opener,
            Resource::Repository(_) => ResourceKind::Repository,
            Resource::FileOptions(_) => ResourceKind::FileOptions,
            Resource::File(_) => ResourceKind::File,
            Resource::VersionReader(_) => ResourceKind::VersionReader,
        }
    }
}

/// The configuration a fresh opener starts from.
pub open spec fn spec_default_opener() -> OpenerCfg {
    OpenerCfg {
        ops_limit: OpsLimit::Interactive,
        mem_limit: MemLimit::Interactive,
        cipher: Cipher::Xchacha,
        create: false,
        create_new: false,
        compress: false,
        version_limit: 0,
        dedup_chunk: false,
        read_only: false,
        force: false,
    }
}

/// Returns the configuration a fresh opener starts from.
pub fn default_opener() -> (r: OpenerCfg)
    ensures
        r == spec_default_opener(),
{
    OpenerCfg {
        ops_limit: OpsLimit::Interactive,
        mem_limit: MemLimit::Interactive,
        cipher: Cipher::Xchacha,
        create: false,
        create_new: false,
        compress: false,
        version_limit: 0,
        dedup_chunk: false,
        read_only: false,
        force: false,
    }
}

/// The configuration a fresh file-options builder starts from: opened for
/// reading, everything else off.
pub open spec fn spec_default_options() -> OptionsCfg {
    OptionsCfg {
        read: true,
        write: false,
        append: false,
        truncate: false,
        create: false,
        create_new: false,
        version_limit: 0,
        dedup_chunk: false,
    }
}

/// Returns the configuration a fresh file-options builder starts from.
pub fn default_options() -> (r: OptionsCfg)
    ensures
        r == spec_default_options(),
{
    OptionsCfg {
        read: true,
        write: false,
        append: false,
        truncate: false,
        create: false,
        create_new: false,
        version_limit: 0,
        dedup_chunk: false,
    }
}

/// The slot a token addresses: the resource held there, or `None` when the
/// token is out of range or the slot was detached.
pub open spec fn slot_of(slots: Seq<Option<Resource>>, token: usize) -> Option<Resource> {
    if token < slots.len() {
        slots[token as int]
    } else {
        None
    }
}

/// The handle table.  A token is an index into the slots; a slot holds the
/// attached resource until it is detached, and is never reused afterwards.
pub struct HandleTable {
    pub slots: Vec<Option<Resource>>,
}

impl HandleTable {
    /// Returns an empty table.
    pub fn new() -> (t: HandleTable)
        ensures
            t.slots@.len() == 0,
    {
        HandleTable { slots: Vec::new() }
    }

    /// Attaches a fresh native resource at managed-object construction.
    /// Only the builder kinds construct a resource here; the other kinds
    /// receive theirs as the output of an operation, so attaching them
    /// stores nothing and returns no token.
    pub fn attach(&mut self, kind: ResourceKind) -> (r: Option<usize>)
        ensures
            kind == ResourceKind::Opener ==> r == Some(old(self).slots@.len() as usize)
                && final(self).slots@ == old(self).slots@.push(
                Some(Resource::Opener(spec_default_opener())),
            ),
            kind == ResourceKind::FileOptions ==> r == Some(old(self).slots@.len() as usize)
                && final(self).slots@ == old(self).slots@.push(
                Some(Resource::FileOptions(spec_default_options())),
            ),
            kind != ResourceKind::Opener && kind != ResourceKind::FileOptions ==> r is None
                && final(self).slots@ == old(self).slots@,
    {
        match kind {
            ResourceKind::Opener => {
                let token = self.slots.len();
                self.slots.push(Some(Resource::Opener(default_opener())));
                Some(token)
            },
            ResourceKind::FileOptions => {
                let token = self.slots.len();
                self.slots.push(Some(Resource::FileOptions(default_options())));
                Some(token)
            },
            _ => None,
        }
    }

    /// Binds a resource produced by an operation to a fresh token.
    pub fn bind(&mut self, res: Resource) -> (token: usize)
        ensures
            token == old(self).slots@.len(),
            final(self).slots@ == old(self).slots@.push(Some(res)),
    {
        let token = self.slots.len();
        self.slots.push(Some(res));
        token
    }

    /// Detaches and releases the resource a token addresses.  Only the
    /// first call has effect: a second detach of the same token, as a
    /// finalizer may issue after an explicit dispose, finds the slot
    /// empty and changes nothing, and no call here ever fails.
    pub fn detach(&mut self, token: usize)
        ensures
            token < old(self).slots@.len() ==> final(self).slots@ == old(self).slots@.update(
                token as int,
                None,
            ),
            token >= old(self).slots@.len() ==> final(self).slots@ == old(self).slots@,
            slot_of(final(self).slots@, token) is None,
    {
        if token < self.slots.len() {
            self.slots.set(token, None);
        }
    }
}

/// Detaching a resource twice in sequence is a no-op the second time: the
/// state after the second detach is exactly the state after the first,
/// whatever the slot held before.
pub proof fn lemma_detach_twice(slots: Seq<Option<Resource>>, token: usize)
    requires
        token < slots.len(),
    ensures
        slots.update(token as int, None).update(token as int, None) == slots.update(
            token as int,
            None,
        ),
{
    assert(slots.update(token as int, None).update(token as int, None) =~= slots.update(
        token as int,
        None,
    ));
}

} // verus!
