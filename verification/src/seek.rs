//! The seek unifier: maps a numeric offset plus a symbolic origin code
//! into one seek specification, and fixes how a resource resolves that
//! specification into a new absolute cursor position.

use vstd::prelude::*;

verus! {

/// A unified seek request: an absolute offset from the start, or a signed
/// delta from the current position or from the end of the content.
#[derive(Clone, Copy, Debug, PartialEq, Eq, Structural)]
pub enum SeekSpec {
    Start(u64),
    Current(i64),
    End(i64),
}

/// Origin code for an absolute seek from the start.
pub const SEEK_ORIGIN_START: i32 = 0;

/// Origin code for a signed seek relative to the current position.
pub const SEEK_ORIGIN_CURRENT: i32 = 1;

/// Origin code for a signed seek relative to the end of the content.
pub const SEEK_ORIGIN_END: i32 = 2;

/// The seek specification an offset and an origin code denote.
pub open spec fn spec_to_seek(offset: i64, whence: i32) -> SeekSpec {
    if whence == 0 {
        SeekSpec::Start(offset as u64)
    } else if whence == 1 {
        SeekSpec::Current(offset)
    } else {
        SeekSpec::End(offset)
    }
}

/// Maps an offset and an origin code to a seek specification.  With the
/// start origin the offset is reinterpreted as unsigned; for the other
/// origins it stays a signed delta.  Other origin codes are a
/// calling-convention violation and are excluded.
pub fn to_seek_from(offset: i64, whence: i32) -> (r: SeekSpec)
    requires
        0 <= whence <= 2,
    ensures
        r == spec_to_seek(offset, whence),
{
    if whence == SEEK_ORIGIN_START {
        SeekSpec::Start(offset as u64)
    } else if whence == SEEK_ORIGIN_CURRENT {
        SeekSpec::Current(offset)
    } else {
        SeekSpec::End(offset)
    }
}

/// The absolute position a seek resolves to on a resource with content
/// length `len` and current position `pos`, or `None` when the resulting
/// position would fall outside `0..=u64::MAX`.
pub open spec fn spec_seek(len: u64, pos: u64, s: SeekSpec) -> Option<u64> {
    match s {
        SeekSpec::Start(off) => Some(off),
        SeekSpec::Current(delta) => {
            let target = pos + delta;
            if 0 <= target <= u64::MAX {
                Some(target as u64)
            } else {
                None
            }
        },
        SeekSpec::End(delta) => {
            let target = len + delta;
            if 0 <= target <= u64::MAX {
                Some(target as u64)
            } else {
                None
            }
        },
    }
}

/// Resolves a seek specification against a content length and a current
/// position, exactly as `spec_seek` states.
pub fn resolve_seek(len: u64, pos: u64, s: SeekSpec) -> (r: Option<u64>)
    ensures
        r == spec_seek(len, pos, s),
{
    match s {
        SeekSpec::Start(off) => Some(off),
        SeekSpec::Current(delta) => seek_from_base(pos, delta),
        SeekSpec::End(delta) => seek_from_base(len, delta),
    }
}

/// Adds a signed delta to an unsigned base position, reporting `None` when
/// the exact sum leaves `0..=u64::MAX`.
fn seek_from_base(base: u64, delta: i64) -> (r: Option<u64>)
    ensures
        0 <= base + delta <= u64::MAX ==> r == Some((base + delta) as u64),
        !(0 <= base + delta <= u64::MAX) ==> r is None,
{
    if delta >= 0 {
        let d = delta as u64;
        if base <= u64::MAX - d {
            Some(base + d)
        } else {
            None
        }
    } else {
        // delta in i64::MIN..0; its magnitude fits in u64
        let mag: u64 = if delta == i64::MIN {
            9223372036854775808u64
        } else {
            (-delta) as u64
        };
        if base >= mag {
            Some(base - mag)
        } else {
            None
        }
    }
}

/// A seek that succeeds fully determines the cursor: querying the position
/// right afterwards (a zero-delta seek from the current position) returns
/// exactly the value the seek just set, whatever the content length is.
pub proof fn lemma_seek_then_query(len: u64, pos: u64, s: SeekSpec, newpos: u64)
    requires
        spec_seek(len, pos, s) == Some(newpos),
    ensures
        spec_seek(len, newpos, SeekSpec::Current(0)) == Some(newpos),
{
}

} // verus!
