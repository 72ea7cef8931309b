//! A cross-runtime resource bridge for an encrypted, versioned file store.
//!
//! The bridge lets a managed-runtime client drive native storage resources
//! (repository openers, repositories, file options, files, version readers)
//! as if they were native managed objects.  Every resource is held in a
//! handle table and addressed by an opaque token; operations resolve the
//! token, act on the resource, and marshal results or errors back as plain
//! values.

use vstd::prelude::*;

pub mod bridge;
pub mod buffer;
pub mod builders;
pub mod error;
pub mod file_ops;
pub mod kind;
pub mod open_ops;
pub mod paths;
pub mod readers;
pub mod repo_ops;
pub mod repo_tree;
pub mod seek;
pub mod store;
pub mod table;
pub mod values;
pub mod xfer;

verus! {

/// Converts a managed-runtime boolean (0 or 1) into a native `bool`.
/// Any other value is a calling-convention violation and is excluded.
pub fn u8_to_bool(a: u8) -> (r: bool)
    requires
        a == 0 || a == 1,
    ensures
        r == (a == 1),
{
    match a {
        0 => false,
        _ => true,
    }
}

/// Converts a point in time into whole seconds since the Unix epoch,
/// truncating the sub-second part.  Times too far in the future to be
/// counted in a signed 64-bit second count are excluded.
pub fn time_to_secs(t: values::Timestamp) -> (r: i64)
    requires
        t.secs <= i64::MAX,
    ensures
        r == t.secs as i64,
{
    t.secs as i64
}

/// Clamps a version-retention limit to the accepted range.
/// Values in `1..=255` pass through; everything else becomes `0`,
/// which the store interprets as "no explicit limit".
pub fn check_version_limit(limit: i32) -> (r: i32)
    ensures
        1 <= limit <= 255 ==> r == limit,
        !(1 <= limit <= 255) ==> r == 0,
{
    if 1 <= limit && limit <= 255 {
        limit
    } else {
        0
    }
}

} // verus!
