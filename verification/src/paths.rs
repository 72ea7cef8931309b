//! Path validity for the store: a path is accepted only when it is rooted,
//! and an unrooted or null path is rejected before any native call runs.

use vstd::prelude::*;
use crate::error::BridgeError;

verus! {

/// A path is rooted when it begins with the store's root marker `/`.
pub open spec fn spec_path_rooted(p: Seq<char>) -> bool {
    p.len() > 0 && p[0] == '/'
}

/// Checks whether a path begins with the root marker.
pub fn path_is_rooted(p: &str) -> (r: bool)
    ensures
        r == spec_path_rooted(p@),
{
    let n = p.unicode_len();
    if n == 0 {
        false
    } else {
        p.get_char(0) == '/'
    }
}

/// Validates a path handed in from the managed side: a missing (null) or
/// unrooted path is rejected with the invalid-path error, before the store
/// is ever consulted.
pub fn path_validate(path: Option<&str>) -> (r: Result<(), BridgeError>)
    ensures
        match path {
            None => r == Result::<(), BridgeError>::Err(BridgeError::InvalidPath),
            Some(p) => {
                if spec_path_rooted(p@) {
                    r is Ok
                } else {
                    r == Result::<(), BridgeError>::Err(BridgeError::InvalidPath)
                }
            },
        },
{
    match path {
        None => Err(BridgeError::InvalidPath),
        Some(p) => {
            if path_is_rooted(p) {
                Ok(())
            } else {
                Err(BridgeError::InvalidPath)
            }
        },
    }
}

/// The prefix every direct child of a directory starts with: the directory
/// itself when it is the root, otherwise the directory followed by `/`.
pub open spec fn spec_child_base(dir: Seq<char>) -> Seq<char> {
    if dir == seq!['/'] {
        dir
    } else {
        dir.push('/')
    }
}

/// Whether `p` names a direct child of directory `dir`: it extends the
/// child base by a non-empty name that contains no further separator.
pub open spec fn spec_direct_child(dir: Seq<char>, p: Seq<char>) -> bool {
    let base = spec_child_base(dir);
    &&& p.len() > base.len()
    &&& p.subrange(0, base.len() as int) == base
    &&& forall|i: int| base.len() <= i < p.len() ==> p[i] != '/'
}

/// Checks whether `p` names a direct child of directory `dir`.
pub fn is_direct_child(dir: &str, p: &str) -> (r: bool)
    requires
        spec_path_rooted(dir@),
    ensures
        r == spec_direct_child(dir@, p@),
{
    let dir_len = dir.unicode_len();
    let p_len = p.unicode_len();
    let is_root = dir_len == 1;
    proof {
        reveal_strlit("/");
        if is_root {
            assert(dir@ =~= seq!['/']);
        } else {
            assert(dir@ != seq!['/']);
        }
    }
    if p_len <= dir_len {
        proof {
            assert(!spec_direct_child(dir@, p@));
        }
        return false;
    }
    let base_len = if is_root { dir_len } else {
        dir_len + 1
    };
    if p_len <= base_len {
        proof {
            assert(!spec_direct_child(dir@, p@));
        }
        return false;
    }
    // the child must start with the directory itself
    let mut i: usize = 0;
    while i < dir_len
        invariant
            0 <= i <= dir_len,
            dir_len == dir@.len(),
            p_len == p@.len(),
            dir_len < p_len,
            forall|j: int| 0 <= j < i ==> p@[j] == dir@[j],
        decreases dir_len - i,
    {
        if p.get_char(i) != dir.get_char(i) {
            proof {
                let base = spec_child_base(dir@);
                assert(base[i as int] == dir@[i as int]);
                assert(p@.subrange(0, base.len() as int) != base) by {
                    assert(p@.subrange(0, base.len() as int)[i as int] == p@[i as int]);
                }
            }
            return false;
        }
        i += 1;
    }
    // and, below the root, a separator must follow
    if !is_root {
        if p.get_char(dir_len) != '/' {
            proof {
                let base = spec_child_base(dir@);
                assert(base[dir_len as int] == '/');
                assert(p@.subrange(0, base.len() as int) != base) by {
                    assert(p@.subrange(0, base.len() as int)[dir_len as int] == p@[dir_len as int]);
                }
            }
            return false;
        }
    }
    proof {
        let base = spec_child_base(dir@);
        assert(p@.subrange(0, base.len() as int) =~= base);
    }
    // the remaining name must contain no further separator
    let mut k: usize = base_len;
    while k < p_len
        invariant
            base_len <= k <= p_len,
            p_len == p@.len(),
            base_len == spec_child_base(dir@).len(),
            forall|j: int| base_len <= j < k ==> p@[j] != '/',
        decreases p_len - k,
    {
        if p.get_char(k) == '/' {
            return false;
        }
        k += 1;
    }
    true
}

/// The name of a direct child below its directory: the part of the path
/// after the child base.
pub fn child_name(dir: &str, p: &str) -> (r: String)
    requires
        spec_path_rooted(dir@),
        spec_direct_child(dir@, p@),
    ensures
        r@ == p@.subrange(spec_child_base(dir@).len() as int, p@.len() as int),
{
    let dir_len = dir.unicode_len();
    let p_len = p.unicode_len();
    proof {
        reveal_strlit("/");
        if dir_len == 1 {
            assert(dir@ =~= seq!['/']);
        } else {
            assert(dir@ != seq!['/']);
        }
    }
    proof {
        assert(p@.len() > spec_child_base(dir@).len());
    }
    let base_len = if dir_len == 1 { dir_len } else {
        dir_len + 1
    };
    let name = p.substring_char(base_len, p_len);
    String::from_str(name)
}

} // verus!
