//! The buffer bridge: moves raw bytes between a caller-supplied buffer and
//! a stream-like resource's content at its cursor, for read, write and
//! "read all remaining" operations.

use vstd::prelude::*;

verus! {

/// How many bytes a stream with the given content length has left at a
/// cursor position.
pub open spec fn spec_avail(len: nat, pos: u64) -> nat {
    if pos < len {
        (len - pos) as nat
    } else {
        0
    }
}

/// The smaller of two values.
pub open spec fn spec_min(a: int, b: int) -> int {
    if a < b {
        a
    } else {
        b
    }
}

/// The destination after a read: bytes `offset..offset+n` carry the source
/// bytes from `pos` on, everything else is untouched, and the length is
/// kept.
pub open spec fn buf_filled(
    dst0: Seq<u8>,
    dst1: Seq<u8>,
    src: Seq<u8>,
    pos: int,
    offset: int,
    n: int,
) -> bool {
    &&& dst1.len() == dst0.len()
    &&& forall|i: int| 0 <= i < offset ==> dst1[i] == dst0[i]
    &&& forall|i: int| 0 <= i < n ==> #[trigger] dst1[offset + i] == src[pos + i]
    &&& forall|i: int| offset + n <= i < dst0.len() ==> dst1[i] == dst0[i]
}

/// A stream's content after a write of `src` at position `pos`: the content
/// grows to hold the written range, a gap between the old end and `pos` is
/// zero-filled, and everything outside the written range keeps its byte.
pub open spec fn spec_written(c: Seq<u8>, pos: nat, src: Seq<u8>) -> Seq<u8> {
    Seq::new(
        if c.len() >= pos + src.len() {
            c.len()
        } else {
            pos + src.len()
        },
        |i: int|
            if pos <= i < pos + src.len() {
                src[i - pos]
            } else if i < c.len() {
                c[i]
            } else {
                0u8
            },
    )
}

/// Copies up to `dst.len() - offset` bytes from the content's cursor into
/// `dst[offset..]`, advances the cursor by the count copied, and returns
/// that count; zero means end of stream.
pub fn stream_read_into(content: &Vec<u8>, pos: &mut u64, dst: &mut Vec<u8>, offset: usize) -> (n:
    usize)
    requires
        offset <= old(dst)@.len(),
    ensures
        n == spec_min((old(dst)@.len() - offset) as int, spec_avail(content@.len(), *old(pos)) as int),
        *final(pos) == *old(pos) + n,
        buf_filled(old(dst)@, final(dst)@, content@, *old(pos) as int, offset as int, n as int),
{
    let len = content.len();
    let p64 = *pos;
    let avail: usize = if p64 < len as u64 {
        len - (p64 as usize)
    } else {
        0
    };
    let cap = dst.len() - offset;
    let n = if cap < avail {
        cap
    } else {
        avail
    };
    if n == 0 {
        return 0;
    }
    // a byte is available, so the cursor lies inside the content
    let p = p64 as usize;
    let mut k: usize = 0;
    while k < n
        invariant
            k <= n,
            offset + n <= dst@.len(),
            dst@.len() == old(dst)@.len(),
            n <= avail,
            avail == spec_avail(content@.len(), p64),
            p == p64,
            p + avail <= content@.len(),
            content@.len() <= usize::MAX,
            dst@.len() <= usize::MAX,
            forall|i: int| 0 <= i < offset ==> dst@[i] == old(dst)@[i],
            forall|i: int| 0 <= i < k ==> #[trigger] dst@[offset + i] == content@[p + i],
            forall|i: int| offset + k <= i < dst@.len() ==> dst@[i] == old(dst)@[i],
        decreases n - k,
    {
        let b = content[p + k];
        dst.set(offset + k, b);
        k += 1;
    }
    *pos = p64 + n as u64;
    n
}

/// Reads everything between the cursor and the end of the content: first
/// computes how much remains and sizes a buffer to exactly that, then
/// loops reading until a read returns zero, and finally sizes the returned
/// buffer to what was actually transferred.
pub fn stream_read_all(content: &Vec<u8>, pos: &mut u64) -> (out: Vec<u8>)
    ensures
        *old(pos) <= content@.len() ==> out@ == content@.subrange(
            *old(pos) as int,
            content@.len() as int,
        ) && *final(pos) == content@.len(),
        *old(pos) > content@.len() ==> out@.len() == 0 && *final(pos) == *old(pos),
{
    let len = content.len();
    let p0 = *pos;
    let remaining: usize = if p0 < len as u64 {
        len - (p0 as usize)
    } else {
        0
    };
    let mut out: Vec<u8> = vec![0u8; remaining];
    let mut transferred: usize = 0;
    loop
        invariant
            transferred <= remaining,
            out@.len() == remaining,
            remaining == spec_avail(content@.len(), p0),
            *pos == p0 + transferred,
            forall|i: int| 0 <= i < transferred ==> #[trigger] out@[i] == content@[p0 + i],
        ensures
            transferred == remaining,
            out@.len() == remaining,
            *pos == p0 + transferred,
            forall|i: int| 0 <= i < transferred ==> #[trigger] out@[i] == content@[p0 + i],
        decreases remaining - transferred,
    {
        let ghost out_pre = out@;
        let n = stream_read_into(content, pos, &mut out, transferred);
        if n == 0 {
            proof {
                if transferred < remaining {
                    assert(spec_avail(content@.len(), (p0 + transferred) as u64) == remaining
                        - transferred);
                }
            }
            break;
        }
        proof {
            assert forall|i: int| 0 <= i < transferred + n implies #[trigger] out@[i] == content@[
                p0 + i
            ] by {
                if i < transferred {
                    assert(out@[i] == out_pre[i]);
                } else {
                    let j = i - transferred;
                    assert(out@[transferred + j] == content@[(p0 + transferred) + j]);
                }
            }
        }
        transferred += n;
    }
    out.truncate(transferred);
    proof {
        if p0 <= content@.len() {
            assert(out@ =~= content@.subrange(p0 as int, content@.len() as int));
        }
    }
    out
}

/// Writes the whole source at the cursor: pads the content with zeros up
/// to the cursor where it lies beyond the end, lays the source down, and
/// advances the cursor past it.  Fails without touching anything when the
/// written range cannot be addressed.
pub fn stream_write(content: &mut Vec<u8>, pos: &mut u64, src: &Vec<u8>) -> (r: Result<
    usize,
    crate::error::BridgeError,
>)
    ensures
        match r {
            Ok(n) => n == src@.len() && *old(pos) + src@.len() <= usize::MAX && final(content)@
                == spec_written(old(content)@, *old(pos) as nat, src@) && *final(pos) == *old(pos)
                + n,
            Err(e) => e == crate::error::BridgeError::InvalidArgument && *old(pos) + src@.len()
                > usize::MAX && *final(content) == *old(content) && *final(pos) == *old(pos),
        },
{
    let p64 = *pos;
    if p64 > (usize::MAX as u64) {
        return Err(crate::error::BridgeError::InvalidArgument);
    }
    let p = p64 as usize;
    if src.len() > usize::MAX - p {
        return Err(crate::error::BridgeError::InvalidArgument);
    }
    // zero-fill any gap between the end of the content and the cursor
    while content.len() < p
        invariant
            content@.len() >= old(content)@.len() || content@ == old(content)@,
            content@.len() <= (if old(content)@.len() >= p {
                old(content)@.len() as int
            } else {
                p as int
            }),
            forall|i: int| 0 <= i < old(content)@.len() ==> content@[i] == old(content)@[i],
            forall|i: int| old(content)@.len() <= i < content@.len() ==> content@[i] == 0u8,
        decreases p - content@.len(),
    {
        content.push(0);
    }
    let ghost padded = content@;
    // lay the source down at the cursor, overwriting then extending
    let mut k: usize = 0;
    while k < src.len()
        invariant
            k <= src@.len(),
            p + src@.len() <= usize::MAX,
            p <= padded.len(),
            padded.len() == (if old(content)@.len() >= p {
                old(content)@.len() as int
            } else {
                p as int
            }),
            forall|i: int| 0 <= i < old(content)@.len() ==> padded[i] == old(content)@[i],
            forall|i: int| old(content)@.len() <= i < padded.len() ==> padded[i] == 0u8,
            content@.len() == (if padded.len() >= p + k {
                padded.len() as int
            } else {
                (p + k) as int
            }),
            forall|i: int| 0 <= i < p ==> content@[i] == padded[i],
            forall|i: int| 0 <= i < k ==> #[trigger] content@[p + i] == src@[i],
            forall|i: int| p + k <= i < padded.len() ==> content@[i] == padded[i],
        decreases src@.len() - k,
    {
        let b = src[k];
        if p + k < content.len() {
            content.set(p + k, b);
        } else {
            content.push(b);
        }
        k += 1;
    }
    *pos = (p + src.len()) as u64;
    proof {
        let c0 = old(content)@;
        let w = spec_written(c0, p as nat, src@);
        assert(content@.len() == w.len());
        assert forall|i: int| 0 <= i < w.len() implies content@[i] == w[i] by {
            if p <= i < p + src@.len() {
                assert(content@[p + (i - p)] == src@[i - p]);
                assert(w[i] == src@[i - p]);
            } else if i < p {
                assert(content@[i] == padded[i]);
                if i < c0.len() {
                    assert(padded[i] == c0[i]);
                } else {
                    assert(padded[i] == 0u8);
                }
            } else {
                assert(i < c0.len());
                assert(content@[i] == padded[i]);
                assert(padded[i] == c0[i]);
            }
        }
        assert(content@ =~= w);
    }
    Ok(src.len())
}

} // verus!
