//! The value marshaller's vocabulary: the enumerations shared with the
//! managed side, marshalled field by field through symbolic names, and the
//! immutable value objects returned by queries.

use vstd::prelude::*;
use crate::error::BridgeError;

verus! {

/// Compares two string slices by their character sequences.
pub fn str_eq(a: &str, b: &str) -> (r: bool)
    ensures
        r == (a@ == b@),
{
    let sa = String::from_str(a);
    let sb = String::from_str(b);
    sa == sb
}

/// The kind of an item in the store.
#[derive(Clone, Copy, Debug, PartialEq, Eq, Structural)]
pub enum FileKind {
    File,
    Dir,
}

/// The cipher a repository encrypts with.
#[derive(Clone, Copy, Debug, PartialEq, Eq, Structural)]
pub enum Cipher {
    Xchacha,
    Aes,
}

/// The operations-cost tier of the repository's key derivation.
#[derive(Clone, Copy, Debug, PartialEq, Eq, Structural)]
pub enum OpsLimit {
    Interactive,
    Moderate,
    Sensitive,
}

/// The memory-cost tier of the repository's key derivation.
#[derive(Clone, Copy, Debug, PartialEq, Eq, Structural)]
pub enum MemLimit {
    Interactive,
    Moderate,
    Sensitive,
}

/// The upper-case symbolic name a file kind is marshalled under.
pub open spec fn spec_file_kind_name(k: FileKind) -> Seq<char> {
    match k {
        FileKind::File => "FILE"@,
        FileKind::Dir => "DIR"@,
    }
}

/// The file kind a symbolic name resolves to on the managed side.
pub open spec fn spec_file_kind_of_name(s: Seq<char>) -> Option<FileKind> {
    if s == "FILE"@ {
        Some(FileKind::File)
    } else if s == "DIR"@ {
        Some(FileKind::Dir)
    } else {
        None
    }
}

impl FileKind {
    /// Renders this kind's upper-case symbolic name.
    pub fn name(self) -> (r: &'static str)
        ensures
            r@ == spec_file_kind_name(self),
    {
        match self {
            FileKind::File => "FILE",
            FileKind::Dir => "DIR",
        }
    }

    /// Resolves an upper-case symbolic name back to a file kind.
    pub fn from_name(s: &str) -> (r: Option<FileKind>)
        ensures
            r == spec_file_kind_of_name(s@),
    {
        if str_eq(s, "FILE") {
            Some(FileKind::File)
        } else if str_eq(s, "DIR") {
            Some(FileKind::Dir)
        } else {
            None
        }
    }
}

/// Rendering a file kind's name and resolving it on the managed side is a
/// total, collision-free round trip over the kind's whole domain.
pub proof fn lemma_file_kind_name_round_trip()
    ensures
        forall|k: FileKind| spec_file_kind_of_name(spec_file_kind_name(k)) == Some(k),
        forall|k1: FileKind, k2: FileKind|
            spec_file_kind_name(k1) == spec_file_kind_name(k2) ==> k1 == k2,
{
    reveal_strlit("FILE");
    reveal_strlit("DIR");
    assert(forall|k: FileKind| spec_file_kind_of_name(spec_file_kind_name(k)) == Some(k)) by {
        assert("FILE"@.len() == 4 && "DIR"@.len() == 3);
    }
}

/// The upper-case symbolic name a cipher is marshalled under.
pub open spec fn spec_cipher_name(c: Cipher) -> Seq<char> {
    match c {
        Cipher::Xchacha => "XCHACHA"@,
        Cipher::Aes => "AES"@,
    }
}

/// The cipher a symbolic name resolves to on the managed side.
pub open spec fn spec_cipher_of_name(s: Seq<char>) -> Option<Cipher> {
    if s == "XCHACHA"@ {
        Some(Cipher::Xchacha)
    } else if s == "AES"@ {
        Some(Cipher::Aes)
    } else {
        None
    }
}

impl Cipher {
    /// Renders this cipher's upper-case symbolic name.
    pub fn name(self) -> (r: &'static str)
        ensures
            r@ == spec_cipher_name(self),
    {
        match self {
            Cipher::Xchacha => "XCHACHA",
            Cipher::Aes => "AES",
        }
    }

    /// Resolves an upper-case symbolic name back to a cipher.
    pub fn from_name(s: &str) -> (r: Option<Cipher>)
        ensures
            r == spec_cipher_of_name(s@),
    {
        if str_eq(s, "XCHACHA") {
            Some(Cipher::Xchacha)
        } else if str_eq(s, "AES") {
            Some(Cipher::Aes)
        } else {
            None
        }
    }

    /// Resolves the fixed numeric code the managed side configures a
    /// cipher with.
    pub fn from_code(c: i32) -> (r: Option<Cipher>)
        ensures
            c == 0 ==> r == Some(Cipher::Xchacha),
            c == 1 ==> r == Some(Cipher::Aes),
            !(0 <= c <= 1) ==> r is None,
    {
        match c {
            0 => Some(Cipher::Xchacha),
            1 => Some(Cipher::Aes),
            _ => None,
        }
    }
}

/// Rendering a cipher's name and resolving it on the managed side is a
/// total, collision-free round trip over the cipher's whole domain.
pub proof fn lemma_cipher_name_round_trip()
    ensures
        forall|c: Cipher| spec_cipher_of_name(spec_cipher_name(c)) == Some(c),
        forall|c1: Cipher, c2: Cipher| spec_cipher_name(c1) == spec_cipher_name(c2) ==> c1 == c2,
{
    reveal_strlit("XCHACHA");
    reveal_strlit("AES");
    assert(forall|c: Cipher| spec_cipher_of_name(spec_cipher_name(c)) == Some(c)) by {
        assert("XCHACHA"@.len() == 7 && "AES"@.len() == 3);
    }
}

/// The upper-case symbolic name an operations-cost tier is marshalled under.
pub open spec fn spec_ops_limit_name(l: OpsLimit) -> Seq<char> {
    match l {
        OpsLimit::Interactive => "INTERACTIVE"@,
        OpsLimit::Moderate => "MODERATE"@,
        OpsLimit::Sensitive => "SENSITIVE"@,
    }
}

/// The operations-cost tier a symbolic name resolves to.
pub open spec fn spec_ops_limit_of_name(s: Seq<char>) -> Option<OpsLimit> {
    if s == "INTERACTIVE"@ {
        Some(OpsLimit::Interactive)
    } else if s == "MODERATE"@ {
        Some(OpsLimit::Moderate)
    } else if s == "SENSITIVE"@ {
        Some(OpsLimit::Sensitive)
    } else {
        None
    }
}

impl OpsLimit {
    /// Renders this tier's upper-case symbolic name.
    pub fn name(self) -> (r: &'static str)
        ensures
            r@ == spec_ops_limit_name(self),
    {
        match self {
            OpsLimit::Interactive => "INTERACTIVE",
            OpsLimit::Moderate => "MODERATE",
            OpsLimit::Sensitive => "SENSITIVE",
        }
    }

    /// Resolves an upper-case symbolic name back to a tier.
    pub fn from_name(s: &str) -> (r: Option<OpsLimit>)
        ensures
            r == spec_ops_limit_of_name(s@),
    {
        if str_eq(s, "INTERACTIVE") {
            Some(OpsLimit::Interactive)
        } else if str_eq(s, "MODERATE") {
            Some(OpsLimit::Moderate)
        } else if str_eq(s, "SENSITIVE") {
            Some(OpsLimit::Sensitive)
        } else {
            None
        }
    }

    /// Resolves the fixed numeric code the managed side configures a
    /// tier with.
    pub fn from_code(c: i32) -> (r: Option<OpsLimit>)
        ensures
            c == 0 ==> r == Some(OpsLimit::Interactive),
            c == 1 ==> r == Some(OpsLimit::Moderate),
            c == 2 ==> r == Some(OpsLimit::Sensitive),
            !(0 <= c <= 2) ==> r is None,
    {
        match c {
            0 => Some(OpsLimit::Interactive),
            1 => Some(OpsLimit::Moderate),
            2 => Some(OpsLimit::Sensitive),
            _ => None,
        }
    }
}

/// Rendering an operations-cost tier's name and resolving it is a total,
/// collision-free round trip over the tier's whole domain.
pub proof fn lemma_ops_limit_name_round_trip()
    ensures
        forall|l: OpsLimit| spec_ops_limit_of_name(spec_ops_limit_name(l)) == Some(l),
        forall|l1: OpsLimit, l2: OpsLimit|
            spec_ops_limit_name(l1) == spec_ops_limit_name(l2) ==> l1 == l2,
{
    reveal_strlit("INTERACTIVE");
    reveal_strlit("MODERATE");
    reveal_strlit("SENSITIVE");
    assert(forall|l: OpsLimit| spec_ops_limit_of_name(spec_ops_limit_name(l)) == Some(l)) by {
        assert("INTERACTIVE"@.len() == 11 && "MODERATE"@.len() == 8 && "SENSITIVE"@.len() == 9);
    }
}

/// The upper-case symbolic name a memory-cost tier is marshalled under.
pub open spec fn spec_mem_limit_name(l: MemLimit) -> Seq<char> {
    match l {
        MemLimit::Interactive => "INTERACTIVE"@,
        MemLimit::Moderate => "MODERATE"@,
        MemLimit::Sensitive => "SENSITIVE"@,
    }
}

/// The memory-cost tier a symbolic name resolves to.
pub open spec fn spec_mem_limit_of_name(s: Seq<char>) -> Option<MemLimit> {
    if s == "INTERACTIVE"@ {
        Some(MemLimit::Interactive)
    } else if s == "MODERATE"@ {
        Some(MemLimit::Moderate)
    } else if s == "SENSITIVE"@ {
        Some(MemLimit::Sensitive)
    } else {
        None
    }
}

impl MemLimit {
    /// Renders this tier's upper-case symbolic name.
    pub fn name(self) -> (r: &'static str)
        ensures
            r@ == spec_mem_limit_name(self),
    {
        match self {
            MemLimit::Interactive => "INTERACTIVE",
            MemLimit::Moderate => "MODERATE",
            MemLimit::Sensitive => "SENSITIVE",
        }
    }

    /// Resolves an upper-case symbolic name back to a tier.
    pub fn from_name(s: &str) -> (r: Option<MemLimit>)
        ensures
            r == spec_mem_limit_of_name(s@),
    {
        if str_eq(s, "INTERACTIVE") {
            Some(MemLimit::Interactive)
        } else if str_eq(s, "MODERATE") {
            Some(MemLimit::Moderate)
        } else if str_eq(s, "SENSITIVE") {
            Some(MemLimit::Sensitive)
        } else {
            None
        }
    }

    /// Resolves the fixed numeric code the managed side configures a
    /// tier with.
    pub fn from_code(c: i32) -> (r: Option<MemLimit>)
        ensures
            c == 0 ==> r == Some(MemLimit::Interactive),
            c == 1 ==> r == Some(MemLimit::Moderate),
            c == 2 ==> r == Some(MemLimit::Sensitive),
            !(0 <= c <= 2) ==> r is None,
    {
        match c {
            0 => Some(MemLimit::Interactive),
            1 => Some(MemLimit::Moderate),
            2 => Some(MemLimit::Sensitive),
            _ => None,
        }
    }
}

/// Rendering a memory-cost tier's name and resolving it is a total,
/// collision-free round trip over the tier's whole domain.
pub proof fn lemma_mem_limit_name_round_trip()
    ensures
        forall|l: MemLimit| spec_mem_limit_of_name(spec_mem_limit_name(l)) == Some(l),
        forall|l1: MemLimit, l2: MemLimit|
            spec_mem_limit_name(l1) == spec_mem_limit_name(l2) ==> l1 == l2,
{
    reveal_strlit("INTERACTIVE");
    reveal_strlit("MODERATE");
    reveal_strlit("SENSITIVE");
    assert(forall|l: MemLimit| spec_mem_limit_of_name(spec_mem_limit_name(l)) == Some(l)) by {
        assert("INTERACTIVE"@.len() == 11 && "MODERATE"@.len() == 8 && "SENSITIVE"@.len() == 9);
    }
}

/// A point in time, counted from the Unix epoch.
#[derive(Clone, Copy, Debug, PartialEq, Eq, Structural)]
pub struct Timestamp {
    /// Whole seconds since the epoch.
    pub secs: u64,
    /// Sub-second part, in nanoseconds.
    pub nanos: u32,
}

/// The metadata of one item in the store, constructed fresh per call.
#[derive(Clone, Copy, Debug, PartialEq, Eq, Structural)]
pub struct Metadata {
    pub kind: FileKind,
    pub content_len: u64,
    pub curr_version: u64,
    pub created_at: i64,
    pub modified_at: i64,
}

/// One immutable historical version of a file.
#[derive(Clone, Copy, Debug, PartialEq, Eq, Structural)]
pub struct Version {
    pub num: u64,
    pub content_len: u64,
    pub created_at: i64,
}

/// A summary of an opened repository, constructed fresh per call.
pub struct RepoInfo {
    pub volume_id: Vec<u8>,
    pub version: String,
    pub uri: String,
    pub ops_limit: OpsLimit,
    pub mem_limit: MemLimit,
    pub cipher: Cipher,
    pub compress: bool,
    pub version_limit: u8,
    pub dedup_chunk: bool,
    pub read_only: bool,
    pub created_at: i64,
}

/// One entry of a directory listing.
#[derive(Debug)]
pub struct DirEntry {
    pub path: String,
    pub file_name: String,
    pub metadata: Metadata,
}

/// Marshals a version history for the managed side.  A failed query hands
/// the caller an empty array beside the error that must be raised: the
/// placeholder must never be mistaken for a successful empty history
/// without checking the error.
pub fn to_version_list(history: Result<Vec<Version>, BridgeError>) -> (r: (
    Vec<Version>,
    Option<BridgeError>,
))
    ensures
        match history {
            Ok(vs) => r.0 == vs && r.1 is None,
            Err(e) => r.0@.len() == 0 && r.1 == Some(e),
        },
{
    match history {
        Ok(vs) => (vs, None),
        Err(e) => (Vec::new(), Some(e)),
    }
}

} // verus!
