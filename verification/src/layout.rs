//! Pure layout arithmetic: alignment padding, record size, and the offsets of
//! the index records inside the buffer.
//!
//! The buffer is a single allocation of `capacity` bytes. Payload bytes occupy
//! a prefix `[0, used)`; fixed-size index records occupy a suffix, the record
//! for logical position `i` starting at `capacity - RECORD_SIZE * (i + 1)`.

use vstd::prelude::*;

verus! {

/// Size in bytes of one index record: a byte offset and a byte length,
/// each stored as a little-endian `u64`.
pub const RECORD_SIZE: usize = 16;

/// Alignment that the capacity is rounded down to before the first
/// allocation, so that the index region starts at a record boundary.
pub const RECORD_ALIGN: usize = 8;

/// Padding needed after `offset` to reach the next multiple of `align`.
pub open spec fn spec_align_pad(offset: int, align: int) -> int
    recommends
        align >= 1,
{
    if offset % align == 0 {
        0
    } else {
        align - offset % align
    }
}

/// Largest multiple of `align` that is at most `size`.
pub open spec fn spec_force_align(size: int, align: int) -> int
    recommends
        align >= 1,
{
    size - size % align
}

/// Padding that takes `offset` up to the next multiple of `align`.
pub fn align_pad(offset: usize, align: usize) -> (r: usize)
    requires
        align >= 1,
    ensures
        r == spec_align_pad(offset as int, align as int),
        r < align,
        (offset + r) % (align as int) == 0,
{
    let rem: usize = offset % align;
    proof {
        lemma_align_pad_closes(offset as int, align as int);
    }
    if rem == 0 {
        0
    } else {
        align - rem
    }
}

/// Next offset at or after `candidate` that is a multiple of `align`, or
/// `None` if no such offset exists within the address space. The latter is a
/// configuration error, not a fault to retry.
pub fn aligned_offset(candidate: usize, align: usize) -> (r: Option<usize>)
    requires
        align >= 1,
    ensures
        match r {
            Some(a) => {
                &&& a == candidate + spec_align_pad(candidate as int, align as int)
                &&& a as int % align as int == 0
                &&& candidate <= a
            },
            None => candidate + spec_align_pad(candidate as int, align as int) > usize::MAX,
        },
{
    let pad: usize = align_pad(candidate, align);
    if pad <= usize::MAX - candidate {
        Some(candidate + pad)
    } else {
        None
    }
}

/// Clamps `size` down to a multiple of `align`.
pub fn force_align(size: usize, align: usize) -> (r: usize)
    requires
        align >= 1,
    ensures
        r == spec_force_align(size as int, align as int),
        r <= size,
        r as int % align as int == 0,
        size - r < align,
{
    proof {
        vstd::arithmetic::div_mod::lemma_mod_bound(size as int, align as int);
        vstd::arithmetic::div_mod::lemma_fundamental_div_mod(size as int, align as int);
        vstd::arithmetic::div_mod::lemma_mod_multiples_basic(
            size as int / align as int,
            align as int,
        );
    }
    size - size % align
}

/// Adding the padding really lands on a multiple of the alignment.
proof fn lemma_align_pad_closes(offset: int, align: int)
    requires
        align >= 1,
        offset >= 0,
    ensures
        (offset + spec_align_pad(offset, align)) % align == 0,
        spec_align_pad(offset, align) < align,
{
    let r = offset % align;
    vstd::arithmetic::div_mod::lemma_mod_bound(offset, align);
    vstd::arithmetic::div_mod::lemma_fundamental_div_mod(offset, align);
    if r != 0 {
        let q = offset / align;
        assert(offset + (align - r) == align * (q + 1)) by {
            vstd::arithmetic::mul::lemma_mul_is_distributive_add(align, q, 1);
        }
        assert((align * (q + 1)) % align == 0) by {
            vstd::arithmetic::div_mod::lemma_mod_multiples_basic(q + 1, align);
            vstd::arithmetic::mul::lemma_mul_is_commutative(align, q + 1);
        }
    }
}

} // verus!
