//! The closed set of native resource kinds the bridge can attach to a
//! managed object, and their fixed numeric identifiers.

use vstd::prelude::*;

verus! {

/// A category of native resource.  The set is closed: the managed side
/// declares one of these identifiers per class, and the bridge dispatches
/// on it when constructing or releasing resources.
#[derive(Clone, Copy, Debug, PartialEq, Eq, Structural)]
pub enum ResourceKind {
    /// Builder that opens or creates a repository.
    Opener,
    /// An opened store.
    Repository,
    /// Builder that opens or creates a file inside a repository.
    FileOptions,
    /// An open file handle with a cursor.
    File,
    /// A read-only cursor bound to one historical version of a file.
    VersionReader,
}

/// The fixed numeric identifier of each resource kind, as the managed
/// side declares it.
pub open spec fn spec_kind_id(k: ResourceKind) -> i32 {
    match k {
        ResourceKind::Opener => 100,
        ResourceKind::Repository => 101,
        ResourceKind::FileOptions => 102,
        ResourceKind::File => 103,
        ResourceKind::VersionReader => 104,
    }
}

/// The resource kind denoted by a numeric identifier, if any.
pub open spec fn spec_kind_of_id(id: i32) -> Option<ResourceKind> {
    if id == 100 {
        Some(ResourceKind::Opener)
    } else if id == 101 {
        Some(ResourceKind::Repository)
    } else if id == 102 {
        Some(ResourceKind::FileOptions)
    } else if id == 103 {
        Some(ResourceKind::File)
    } else if id == 104 {
        Some(ResourceKind::VersionReader)
    } else {
        None
    }
}

impl ResourceKind {
    /// Returns this kind's fixed numeric identifier.
    pub fn id(self) -> (r: i32)
        ensures
            r == spec_kind_id(self),
    {
        match self {
            ResourceKind::Opener => 100,
            ResourceKind::Repository => 101,
            ResourceKind::FileOptions => 102,
            ResourceKind::File => 103,
            ResourceKind::VersionReader => 104,
        }
    }

    /// Resolves a numeric identifier back to a resource kind.
    pub fn from_id(id: i32) -> (r: Option<ResourceKind>)
        ensures
            r == spec_kind_of_id(id),
    {
        match id {
            100 => Some(ResourceKind::Opener),
            101 => Some(ResourceKind::Repository),
            102 => Some(ResourceKind::FileOptions),
            103 => Some(ResourceKind::File),
            104 => Some(ResourceKind::VersionReader),
            _ => None,
        }
    }
}

/// The kind identifiers form a closed, collision-free enumeration:
/// resolving a kind's identifier always yields that kind back, and
/// distinct kinds never share an identifier.
pub proof fn lemma_kind_id_round_trip()
    ensures
        forall|k: ResourceKind| spec_kind_of_id(spec_kind_id(k)) == Some(k),
        forall|k1: ResourceKind, k2: ResourceKind|
            spec_kind_id(k1) == spec_kind_id(k2) ==> k1 == k2,
{
}

} // verus!
