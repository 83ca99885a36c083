//! Byte-level primitives on the backing buffer: allocation, bulk copy, and
//! reading/writing the little-endian `u64` halves of an index record.

use vstd::prelude::*;

verus! {

use vstd::bytes::{spec_u64_from_le_bytes, spec_u64_to_le_bytes, u64_from_le_bytes, u64_to_le_bytes};
use vstd::slice::{slice_subrange, slice_to_vec};

/// A fresh zero-initialized buffer of `n` bytes.
pub fn zeroed(n: usize) -> (r: Vec<u8>)
    ensures
        r@.len() == n,
        forall|k: int| 0 <= k < n ==> r@[k] == 0u8,
{
    let mut v: Vec<u8> = Vec::new();
    let mut j: usize = 0;
    while j < n
        invariant
            j <= n,
            v@.len() == j,
            forall|k: int| 0 <= k < j ==> v@[k] == 0u8,
        decreases n - j,
    {
        v.push(0u8);
        j += 1;
    }
    v
}

/// Copies `n` bytes from `src` starting at `src_pos` into `dst` starting at
/// `dst_pos`, leaving every byte outside the destination window unchanged.
pub fn copy_from(dst: &mut Vec<u8>, src: &[u8], src_pos: usize, dst_pos: usize, n: usize)
    requires
        src_pos + n <= src@.len(),
        dst_pos + n <= old(dst)@.len(),
    ensures
        final(dst)@.len() == old(dst)@.len(),
        forall|k: int|
            dst_pos <= k < dst_pos + n ==> final(dst)@[k] == src@[src_pos + (k - dst_pos)],
        forall|k: int|
            0 <= k < old(dst)@.len() && !(dst_pos <= k < dst_pos + n) ==> final(dst)@[k] == old(
                dst,
            )@[k],
{
    let sl: usize = src.len();
    let dl: usize = dst.len();
    let mut j: usize = 0;
    while j < n
        invariant
            j <= n,
            sl == src@.len(),
            dl == dst@.len(),
            src_pos + n <= src@.len(),
            dst_pos + n <= dst@.len(),
            dst@.len() == old(dst)@.len(),
            forall|k: int| dst_pos <= k < dst_pos + j ==> dst@[k] == src@[src_pos + (k - dst_pos)],
            forall|k: int|
                0 <= k < dst@.len() && !(dst_pos <= k < dst_pos + j) ==> dst@[k] == old(dst)@[k],
        decreases n - j,
    {
        let b: u8 = *vstd::slice::slice_index_get(src, src_pos + j);
        dst.set(dst_pos + j, b);
        j += 1;
    }
}

/// An owned copy of the `n` bytes of `buf` starting at `pos`.
pub fn read_bytes(buf: &Vec<u8>, pos: usize, n: usize) -> (r: Vec<u8>)
    requires
        pos + n <= buf@.len(),
    ensures
        r@ == buf@.subrange(pos as int, pos + n),
{
    let l: usize = buf.len();
    assert(pos + n <= l);
    let s: &[u8] = slice_subrange(buf.as_slice(), pos, pos + n);
    slice_to_vec(s)
}

/// Reads the little-endian `u64` stored at `pos`.
pub fn read_u64_at(buf: &Vec<u8>, pos: usize) -> (x: u64)
    requires
        pos + 8 <= buf@.len(),
    ensures
        x == spec_u64_from_le_bytes(buf@.subrange(pos as int, pos + 8)),
{
    let l: usize = buf.len();
    assert(pos + 8 <= l);
    let s: &[u8] = slice_subrange(buf.as_slice(), pos, pos + 8);
    u64_from_le_bytes(s)
}

/// Writes `x` as a little-endian `u64` at `pos`, leaving all other bytes
/// unchanged.
pub fn write_u64_at(buf: &mut Vec<u8>, pos: usize, x: u64)
    requires
        pos + 8 <= old(buf)@.len(),
    ensures
        final(buf)@.len() == old(buf)@.len(),
        final(buf)@.subrange(pos as int, pos + 8) == spec_u64_to_le_bytes(x),
        forall|k: int|
            0 <= k < old(buf)@.len() && !(pos <= k < pos + 8) ==> final(buf)@[k] == old(buf)@[k],
{
    let bytes: Vec<u8> = u64_to_le_bytes(x);
    copy_from(buf, bytes.as_slice(), 0, pos, 8);
    proof {
        vstd::bytes::lemma_auto_spec_u64_to_from_le_bytes();
        assert(buf@.subrange(pos as int, pos + 8) =~= spec_u64_to_le_bytes(x));
    }
}

} // verus!
