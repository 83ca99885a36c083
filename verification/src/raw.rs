//! The buffer manager: one contiguous byte buffer holding variable-size
//! payloads packed from the front and fixed-size index records packed from
//! the back.
//!
//! The record for logical position `i` sits at byte offset
//! `capacity - RECORD_SIZE * (i + 1)` and stores the payload's byte offset
//! and byte length, each as a little-endian `u64`. The payload prefix
//! `[0, elem_size)` and the record suffix grow toward each other; when they
//! would meet, the whole buffer is reallocated and both regions are copied.
//!
//! Removing the last element only drops its record; the payload bytes stay
//! behind as dead bytes until an in-place replace reuses them. No per-payload
//! cleanup ever runs: payloads are plain bytes, so releasing the buffer
//! releases everything.

use vstd::prelude::*;

verus! {

use crate::bufops::{copy_from, read_bytes, read_u64_at, write_u64_at, zeroed};
use crate::layout::{
    align_pad, aligned_offset, force_align, spec_align_pad, spec_force_align, RECORD_ALIGN,
    RECORD_SIZE,
};
use vstd::bytes::spec_u64_from_le_bytes;

/// The decoded form of one index record: the payload's byte offset within
/// the buffer and its byte length.
#[derive(Clone, Copy)]
pub struct PtrData {
    pub offset: usize,
    pub meta: usize,
}

/// A view onto the single allocation: the buffer itself, the number of
/// elements, and the number of bytes the payload prefix occupies.
#[derive(Hash)]
pub struct RawVechonk {
    /// The single allocation; its length is the capacity.
    pub buf: Vec<u8>,
    /// How many elements the buffer holds.
    pub len: usize,
    /// How many bytes the payload prefix `[0, elem_size)` occupies; the next
    /// payload starts at or after this offset. Never decreased except by a
    /// full reallocation.
    pub elem_size: usize,
}

impl View for RawVechonk {
    type V = Seq<Seq<u8>>;

    /// The logical content: the byte string of each element, in index order.
    open spec fn view(&self) -> Seq<Seq<u8>> {
        Seq::new(self.len as nat, |i: int| self.elem_bytes(i))
    }
}

/// The record for position `j` decodes to the same offset and length in
/// both states.
pub open spec fn rec_same(a: RawVechonk, b: RawVechonk, j: int) -> bool {
    b.rec_off(j) == a.rec_off(j) && b.rec_len(j) == a.rec_len(j)
}

impl RawVechonk {
    /// Capacity in bytes of the single allocation.
    pub open spec fn spec_cap(self) -> int {
        self.buf@.len() as int
    }

    /// Byte offset of the index record for logical position `i`.
    pub open spec fn rec_pos(self, i: int) -> int {
        self.spec_cap() - RECORD_SIZE * (i + 1)
    }

    /// The payload offset stored in record `i`.
    pub open spec fn rec_off(self, i: int) -> int {
        spec_u64_from_le_bytes(self.buf@.subrange(self.rec_pos(i), self.rec_pos(i) + 8)) as int
    }

    /// The payload length stored in record `i`.
    pub open spec fn rec_len(self, i: int) -> int {
        spec_u64_from_le_bytes(
            self.buf@.subrange(self.rec_pos(i) + 8, self.rec_pos(i) + 16),
        ) as int
    }

    /// The bytes of payload `i`, as addressed by its record.
    pub open spec fn elem_bytes(self, i: int) -> Seq<u8> {
        self.buf@.subrange(self.rec_off(i), self.rec_off(i) + self.rec_len(i))
    }

    /// Well-formedness: the two regions never overlap, every payload lies
    /// inside the occupied prefix, and payloads sit in index order without
    /// overlapping one another.
    pub open spec fn wf(self) -> bool {
        &&& self.elem_size + RECORD_SIZE * self.len <= self.spec_cap()
        &&& forall|i: int|
            0 <= i < self.len ==> #[trigger] self.rec_off(i) + self.rec_len(i) <= self.elem_size
        &&& forall|i: int|
            0 <= i < self.len - 1 ==> #[trigger] self.rec_off(i) + self.rec_len(i) <= self.rec_off(
                i + 1,
            )
    }

    /// Payloads are ordered: an earlier payload ends at or before a later
    /// payload starts.
    pub proof fn lemma_elems_ordered(self, i: int, j: int)
        requires
            self.wf(),
            0 <= i < j < self.len,
        ensures
            self.rec_off(i) + self.rec_len(i) <= self.rec_off(j),
        decreases j - i,
    {
        if i + 1 < j {
            self.lemma_elems_ordered(i + 1, j);
        }
    }

    /// A deep copy with the same capacity, contents, and counters.
    pub fn copy(&self) -> (r: Self)
        ensures
            r.buf@ == self.buf@,
            r.len == self.len,
            r.elem_size == self.elem_size,
            r@ == self@,
            self.wf() ==> r.wf(),
    {
        let cap: usize = self.buf.len();
        let buf: Vec<u8> = read_bytes(&self.buf, 0, cap);
        proof {
            assert(buf@ =~= self.buf@);
        }
        let r = RawVechonk { buf, len: self.len, elem_size: self.elem_size };
        proof {
            assert(r@ =~= self@);
            if self.wf() {
                assert forall|i: int| 0 <= i < r.len implies #[trigger] r.rec_off(i) + r.rec_len(
                    i,
                ) <= r.elem_size by {
                    assert(self.rec_off(i) + self.rec_len(i) <= self.elem_size);
                }
                assert forall|i: int| 0 <= i < r.len - 1 implies #[trigger] r.rec_off(i)
                    + r.rec_len(i) <= r.rec_off(i + 1) by {
                    assert(self.rec_off(i) + self.rec_len(i) <= self.rec_off(i + 1));
                }
            }
        }
        r
    }

    /// An empty buffer manager with no allocation.
    pub fn new() -> (r: Self)
        ensures
            r.wf(),
            r@ == Seq::<Seq<u8>>::empty(),
            r.len == 0,
            r.elem_size == 0,
            r.spec_cap() == 0,
    {
        let r = RawVechonk { buf: Vec::new(), len: 0, elem_size: 0 };
        proof {
            assert(r@ =~= Seq::<Seq<u8>>::empty());
        }
        r
    }

    /// Allocates `capacity` bytes rounded down to a multiple of the record
    /// alignment, so that the index region never starts mis-aligned. A hint
    /// that rounds down to zero allocates nothing.
    pub fn with_capacity(capacity: usize) -> (r: Self)
        ensures
            r.wf(),
            r@ == Seq::<Seq<u8>>::empty(),
            r.len == 0,
            r.elem_size == 0,
            r.spec_cap() == spec_force_align(capacity as int, RECORD_ALIGN as int),
    {
        let capacity: usize = force_align(capacity, Self::data_align());
        let mut vechonk = Self::new();
        if capacity == 0 {
            return vechonk;
        }
        vechonk.realloc(capacity);
        proof {
            assert(vechonk@ =~= Seq::<Seq<u8>>::empty());
        }
        vechonk
    }

    /// Replaces the allocation with a fresh zero-initialized one of `size`
    /// bytes, copying nothing. The counters keep their old values, so the
    /// caller must either have nothing stored or copy the regions over.
    fn realloc(&mut self, size: usize)
        ensures
            final(self).buf@.len() == size,
            forall|k: int| 0 <= k < size ==> final(self).buf@[k] == 0u8,
            final(self).len == old(self).len,
            final(self).elem_size == old(self).elem_size,
    {
        self.buf = zeroed(size);
    }

    /// Total size in bytes of the index region.
    pub fn data_section_size(&self) -> (r: usize)
        requires
            self.wf(),
        ensures
            r == RECORD_SIZE * self.len,
    {
        let cap: usize = self.buf.len();
        assert(RECORD_SIZE * self.len <= cap);
        self.len * RECORD_SIZE
    }

    /// Byte offset of the record for position `index`; the slot must lie
    /// within the allocation.
    fn offset_for_data(&self, index: usize) -> (r: usize)
        requires
            RECORD_SIZE * (index + 1) <= self.spec_cap(),
        ensures
            r == self.rec_pos(index as int),
            r + RECORD_SIZE <= self.spec_cap(),
            self.spec_cap() <= usize::MAX,
    {
        let cap: usize = self.buf.len();
        cap - RECORD_SIZE * (index + 1)
    }

    /// Whether `additional_size` more bytes fit between the two regions.
    fn needs_grow(&self, additional_size: usize) -> (r: bool)
        requires
            self.wf(),
        ensures
            r == (additional_size > self.spec_cap() - self.elem_size - RECORD_SIZE * self.len),
    {
        let cap: usize = self.buf.len();
        additional_size > cap - (self.elem_size + self.data_section_size())
    }

    /// Alignment the capacity is clamped to: the index region must hold a
    /// whole number of record halves.
    fn data_align() -> (r: usize)
        ensures
            r == RECORD_ALIGN,
    {
        RECORD_ALIGN
    }

    /// Decodes the record for position `index`.
    pub(crate) fn get_data(&self, index: usize) -> (d: PtrData)
        requires
            self.wf(),
            index < self.len,
        ensures
            d.offset == self.rec_off(index as int),
            d.meta == self.rec_len(index as int),
            d.offset + d.meta <= self.elem_size,
    {
        proof {
            assert(RECORD_SIZE * (index + 1) <= RECORD_SIZE * self.len) by {
                vstd::arithmetic::mul::lemma_mul_inequality(
                    index + 1,
                    self.len as int,
                    RECORD_SIZE as int,
                );
                vstd::arithmetic::mul::lemma_mul_is_commutative(
                    RECORD_SIZE as int,
                    index + 1,
                );
                vstd::arithmetic::mul::lemma_mul_is_commutative(
                    RECORD_SIZE as int,
                    self.len as int,
                );
            }
        }
        let pos: usize = self.offset_for_data(index);
        let off64: u64 = read_u64_at(&self.buf, pos);
        let len64: u64 = read_u64_at(&self.buf, pos + 8);
        proof {
            assert(self.rec_off(index as int) + self.rec_len(index as int) <= self.elem_size);
        }
        PtrData { offset: off64 as usize, meta: len64 as usize }
    }

    /// Byte length of the payload at `index`.
    fn sizeof_elem(&self, index: usize) -> (r: usize)
        requires
            self.wf(),
            index < self.len,
        ensures
            r == self.rec_len(index as int),
    {
        self.get_data(index).meta
    }

    /// Copies the payload at `index` out into a fresh, independently owned
    /// allocation sized exactly to the payload.
    pub fn box_elem_unchecked(&self, index: usize) -> (r: Vec<u8>)
        requires
            self.wf(),
            index < self.len,
        ensures
            r@ == self@[index as int],
    {
        let data = self.get_data(index);
        read_bytes(&self.buf, data.offset, data.meta)
    }

    /// Removes the last element and hands its bytes out, or reports `None`
    /// on an empty buffer. The payload bytes are left behind as dead bytes:
    /// only the record count decreases.
    pub fn pop(&mut self) -> (r: Option<Vec<u8>>)
        requires
            old(self).wf(),
        ensures
            final(self).wf(),
            old(self).len == 0 ==> r is None && *final(self) == *old(self),
            old(self).len > 0 ==> {
                &&& r matches Some(v) && v@ == old(self)@.last()
                &&& final(self)@ == old(self)@.drop_last()
                &&& final(self).len == old(self).len - 1
                &&& final(self).elem_size == old(self).elem_size
                &&& final(self).buf@ == old(self).buf@
            },
    {
        if self.len == 0 {
            return None;
        }
        let boxed: Vec<u8> = self.box_elem_unchecked(self.len - 1);
        self.len = self.len - 1;
        proof {
            assert forall|i: int| 0 <= i < self.len implies #[trigger] self.rec_off(i)
                + self.rec_len(i) <= self.elem_size by {
                assert(old(self).rec_off(i) + old(self).rec_len(i) <= old(self).elem_size);
            }
            assert forall|i: int| 0 <= i < self.len - 1 implies #[trigger] self.rec_off(i)
                + self.rec_len(i) <= self.rec_off(i + 1) by {
                assert(old(self).rec_off(i) + old(self).rec_len(i) <= old(self).rec_off(i + 1));
            }
            assert(self@ =~= old(self)@.drop_last());
        }
        Some(boxed)
    }

    /// Reallocates to at least double `min_size` bytes (clamped to the record
    /// alignment), copies the live payload prefix verbatim — offsets stay
    /// valid, being relative to the buffer start — and copies the index
    /// region to the new buffer's tail, then releases the old buffer.
    #[verifier::rlimit(100)]
    fn regrow(&mut self, min_size: usize)
        requires
            old(self).wf(),
            min_size >= old(self).elem_size + RECORD_SIZE * old(self).len + RECORD_SIZE,
            2 * min_size <= usize::MAX,
        ensures
            final(self).wf(),
            final(self)@ == old(self)@,
            final(self).len == old(self).len,
            final(self).elem_size == old(self).elem_size,
            final(self).spec_cap() == spec_force_align(2 * min_size, RECORD_ALIGN as int),
            final(self).spec_cap() >= min_size + RECORD_SIZE * old(self).len,
            forall|i: int| 0 <= i < old(self).len ==> #[trigger] rec_same(*old(self), *final(self), i),
    {
        let new_cap: usize = force_align(2 * min_size, Self::data_align());
        let old_cap: usize = self.buf.len();
        let dss: usize = self.data_section_size();
        assert(new_cap >= min_size + RECORD_SIZE * self.len);
        let mut new_buf: Vec<u8> = zeroed(new_cap);
        // the payload prefix keeps its offsets
        copy_from(&mut new_buf, self.buf.as_slice(), 0, 0, self.elem_size);
        // the index region moves to the new tail as one block
        copy_from(&mut new_buf, self.buf.as_slice(), old_cap - dss, new_cap - dss, dss);
        proof {
            assert(forall|k: int|
                0 <= k < old(self).elem_size ==> new_buf@[k] == old(self).buf@[k]);
        }
        self.buf = new_buf;
        proof {
            let pre = *old(self);
            assert forall|i: int| 0 <= i < self.len implies #[trigger] rec_same(
                pre,
                *self,
                i,
            ) by {
                assert(RECORD_SIZE * (i + 1) <= RECORD_SIZE * self.len) by {
                    vstd::arithmetic::mul::lemma_mul_inequality(
                        i + 1,
                        self.len as int,
                        RECORD_SIZE as int,
                    );
                    vstd::arithmetic::mul::lemma_mul_is_commutative(RECORD_SIZE as int, i + 1);
                    vstd::arithmetic::mul::lemma_mul_is_commutative(
                        RECORD_SIZE as int,
                        self.len as int,
                    );
                }
                assert(self.buf@.subrange(self.rec_pos(i), self.rec_pos(i) + 8)
                    =~= pre.buf@.subrange(pre.rec_pos(i), pre.rec_pos(i) + 8));
                assert(self.buf@.subrange(self.rec_pos(i) + 8, self.rec_pos(i) + 16)
                    =~= pre.buf@.subrange(pre.rec_pos(i) + 8, pre.rec_pos(i) + 16));
            }
            assert forall|i: int| 0 <= i < self.len implies #[trigger] self.elem_bytes(i)
                == pre.elem_bytes(i) by {
                assert(rec_same(pre, *self, i));
                assert(pre.rec_off(i) + pre.rec_len(i) <= pre.elem_size);
                assert(self.elem_bytes(i) =~= pre.elem_bytes(i));
            }
            assert forall|i: int| 0 <= i < self.len implies #[trigger] self.rec_off(i)
                + self.rec_len(i) <= self.elem_size by {
                assert(rec_same(pre, *self, i));
            }
            assert forall|i: int| 0 <= i < self.len - 1 implies #[trigger] self.rec_off(i)
                + self.rec_len(i) <= self.rec_off(i + 1) by {
                assert(rec_same(pre, *self, i));
                assert(rec_same(pre, *self, i + 1));
            }
            assert(self@ =~= pre@);
        }
    }

    /// Appends a payload: aligns a start offset after the occupied prefix,
    /// grows the buffer first if the free middle cannot hold the padding,
    /// the payload, and one more record, then writes the payload bytes and
    /// the new record. References into the buffer stay valid exactly when no
    /// growth occurred.
    #[verifier::rlimit(100)]
    pub fn push(&mut self, element: Vec<u8>, align: usize)
        requires
            old(self).wf(),
            align >= 1,
            2 * (old(self).spec_cap() + spec_align_pad(old(self).elem_size as int, align as int)
                + element@.len() + RECORD_SIZE) <= usize::MAX,
        ensures
            final(self).wf(),
            final(self)@ == old(self)@.push(element@),
            final(self).len == old(self).len + 1,
            final(self).elem_size == old(self).elem_size + spec_align_pad(
                old(self).elem_size as int,
                align as int,
            ) + element@.len(),
            ({
                let need = spec_align_pad(old(self).elem_size as int, align as int)
                    + element@.len() + RECORD_SIZE;
                if need <= old(self).spec_cap() - old(self).elem_size - RECORD_SIZE * old(
                    self,
                ).len {
                    final(self).spec_cap() == old(self).spec_cap()
                } else {
                    final(self).spec_cap() == spec_force_align(
                        2 * (old(self).spec_cap() + need),
                        RECORD_ALIGN as int,
                    )
                }
            }),
    {
        let elem_size: usize = element.len();
        let data_size: usize = RECORD_SIZE;
        let elem_offset: usize = self.elem_size;
        let required_align_offset: usize = align_pad(elem_offset, align);

        let additional: usize = elem_size + data_size + required_align_offset;
        if self.needs_grow(additional) {
            let cap: usize = self.buf.len();
            self.regrow(cap + additional);
        }
        assert(elem_offset + required_align_offset + elem_size + RECORD_SIZE * (self.len + 1)
            <= self.spec_cap());
        let ghost mid0 = *self;

        // copy the payload to its aligned start; recompute nothing, offsets
        // are stable across a reallocation
        let dest: usize = elem_offset + required_align_offset;
        copy_from(&mut self.buf, element.as_slice(), 0, dest, elem_size);
        let ghost mid1 = *self;
        proof {
            assert forall|j: int| 0 <= j < self.len implies #[trigger] rec_same(
                mid0,
                mid1,
                j,
            ) by {
                lemma_rec_slot_in_section(mid0, j);
                assert(mid1.buf@.subrange(mid1.rec_pos(j), mid1.rec_pos(j) + 8)
                    =~= mid0.buf@.subrange(mid0.rec_pos(j), mid0.rec_pos(j) + 8));
                assert(mid1.buf@.subrange(mid1.rec_pos(j) + 8, mid1.rec_pos(j) + 16)
                    =~= mid0.buf@.subrange(mid0.rec_pos(j) + 8, mid0.rec_pos(j) + 16));
            }
        }

        self.write_meta_data(dest, elem_size, self.len);
        let ghost mid2 = *self;
        self.elem_size = dest + elem_size;
        self.len = self.len + 1;

        proof {
            let n = old(self).len as int;
            assert forall|j: int| 0 <= j < n implies #[trigger] rec_same(mid0, *self, j) by {
                lemma_rec_slot_in_section(mid0, j);
                assert(rec_same(mid1, mid2, j));
                assert(rec_same(mid0, mid1, j));
                assert(rec_same(mid2, *self, j));
            }
            assert(rec_same(mid2, *self, n));
            assert(self.rec_off(n) == dest && self.rec_len(n) == elem_size);
            // previously stored payload bytes sit below the old prefix end and
            // were not touched by either write
            assert forall|j: int| 0 <= j < n implies #[trigger] self.elem_bytes(j)
                == mid0.elem_bytes(j) by {
                assert(rec_same(mid0, *self, j));
                assert(mid0.rec_off(j) + mid0.rec_len(j) <= mid0.elem_size);
                assert(self.elem_bytes(j) =~= mid0.elem_bytes(j));
            }
            assert(self.elem_bytes(n) =~= element@);
            assert forall|j: int| 0 <= j < n implies #[trigger] mid0.elem_bytes(j) == old(
                self,
            )@[j] by {}
            assert(self@ =~= old(self)@.push(element@));
            // well-formedness: the new payload begins at or after the end of
            // the previous last one, and everything still fits
            assert forall|i: int| 0 <= i < self.len implies #[trigger] self.rec_off(i)
                + self.rec_len(i) <= self.elem_size by {
                if i < n {
                    assert(rec_same(mid0, *self, i));
                    assert(mid0.rec_off(i) + mid0.rec_len(i) <= mid0.elem_size);
                }
            }
            assert forall|i: int| 0 <= i < self.len - 1 implies #[trigger] self.rec_off(i)
                + self.rec_len(i) <= self.rec_off(i + 1) by {
                assert(rec_same(mid0, *self, i));
                if i + 1 < n {
                    assert(rec_same(mid0, *self, i + 1));
                } else {
                    assert(mid0.rec_off(i) + mid0.rec_len(i) <= mid0.elem_size);
                }
            }
        }
    }

    /// Start of the free window available to slot `index`: the end of the
    /// previous payload, or the buffer start for the first slot. Padding that
    /// preceded the payload counts as free.
    pub open spec fn replace_window_start(self, index: int) -> int {
        if index == 0 {
            0
        } else {
            self.rec_off(index - 1) + self.rec_len(index - 1)
        }
    }

    /// End of the free window available to slot `index`: the start of the
    /// next payload, or the end of the occupied prefix for the last slot.
    pub open spec fn replace_window_end(self, index: int) -> int {
        if index == self.len - 1 {
            self.elem_size as int
        } else {
            self.rec_off(index + 1)
        }
    }

    /// Whether a payload of `size` bytes and alignment `align` fits the free
    /// window of slot `index` without touching any neighbour.
    pub open spec fn replace_fits(self, index: int, size: int, align: int) -> bool {
        let ws = self.replace_window_start(index);
        ws + spec_align_pad(ws, align) + size <= self.replace_window_end(index)
    }

    /// Replaces the payload at `index` in place. On success the old payload
    /// is copied out and returned; the new payload lands inside the free
    /// window of its slot, so no other payload moves and no reallocation
    /// happens. If the index is out of bounds, or the new payload cannot be
    /// aligned, or it does not fit the window, the new payload is returned
    /// unchanged and nothing is mutated: that is an expected outcome, the
    /// caller may fall back to remove-and-append.
    #[verifier::rlimit(100)]
    pub fn try_replace_elem(&mut self, element: Vec<u8>, index: usize, align: usize) -> (r:
        Result<Vec<u8>, Vec<u8>>)
        requires
            old(self).wf(),
            align >= 1,
        ensures
            final(self).wf(),
            index >= old(self).len ==> {
                &&& r matches Err(e) && e == element
                &&& *final(self) == *old(self)
            },
            index < old(self).len && old(self).replace_fits(
                index as int,
                element@.len() as int,
                align as int,
            ) ==> {
                &&& r matches Ok(v) && v@ == old(self)@[index as int]
                &&& final(self)@ == old(self)@.update(index as int, element@)
                &&& final(self).len == old(self).len
                &&& final(self).elem_size == old(self).elem_size
                &&& final(self).spec_cap() == old(self).spec_cap()
            },
            index < old(self).len && !old(self).replace_fits(
                index as int,
                element@.len() as int,
                align as int,
            ) ==> {
                &&& r matches Err(e) && e == element
                &&& *final(self) == *old(self)
            },
    {
        if index >= self.len {
            // out of bounds
            return Err(element);
        }
        // start of the free space, padding of the displaced payload included
        let free_space_start_offset: usize = if index == 0 {
            0
        } else {
            let data_element_before = self.get_data(index - 1);
            data_element_before.offset + self.sizeof_elem(index - 1)
        };

        let next_element_start_offset: usize = if index == self.len - 1 {
            self.elem_size
        } else {
            self.get_data(index + 1).offset
        };

        let elem_size: usize = element.len();

        let new_elem_starting_offset: usize = match aligned_offset(
            free_space_start_offset,
            align,
        ) {
            Some(a) => a,
            None => {
                // no aligned start exists within the address space
                return Err(element);
            },
        };

        if new_elem_starting_offset > next_element_start_offset || next_element_start_offset
            - new_elem_starting_offset < elem_size {
            // not enough room for the payload
            return Err(element);
        }

        let old_elem: Vec<u8> = self.box_elem_unchecked(index);

        copy_from(&mut self.buf, element.as_slice(), 0, new_elem_starting_offset, elem_size);
        let ghost mid1 = *self;
        proof {
            let pre = *old(self);
            let ii = index as int;
            let ws = pre.replace_window_start(ii);
            let we = pre.replace_window_end(ii);
            if ii < pre.len - 1 {
                assert(pre.rec_off(ii + 1) + pre.rec_len(ii + 1) <= pre.elem_size);
            }
            assert(new_elem_starting_offset + elem_size <= we <= pre.elem_size);
            assert forall|j: int| 0 <= j < pre.len implies #[trigger] rec_same(
                pre,
                mid1,
                j,
            ) by {
                lemma_rec_slot_in_section(pre, j);
                assert(mid1.buf@.subrange(mid1.rec_pos(j), mid1.rec_pos(j) + 8)
                    =~= pre.buf@.subrange(pre.rec_pos(j), pre.rec_pos(j) + 8));
                assert(mid1.buf@.subrange(mid1.rec_pos(j) + 8, mid1.rec_pos(j) + 16)
                    =~= pre.buf@.subrange(pre.rec_pos(j) + 8, pre.rec_pos(j) + 16));
            }
            lemma_rec_slot_in_section(pre, ii);
        }
        self.write_meta_data(new_elem_starting_offset, elem_size, index);
        proof {
            let pre = *old(self);
            let ii = index as int;
            let ws = pre.replace_window_start(ii);
            let we = pre.replace_window_end(ii);
            assert forall|j: int| 0 <= j < pre.len && j != ii implies #[trigger] rec_same(
                pre,
                *self,
                j,
            ) by {
                lemma_rec_slot_in_section(pre, j);
                assert(rec_same(pre, mid1, j));
                assert(rec_same(mid1, *self, j));
            }
            assert(self.rec_off(ii) == new_elem_starting_offset && self.rec_len(ii) == elem_size);
            if ii < pre.len - 1 {
                assert(pre.rec_off(ii + 1) + pre.rec_len(ii + 1) <= pre.elem_size);
            }
            // payloads other than the replaced one kept their bytes: they lie
            // entirely outside the window that was written
            assert forall|j: int| 0 <= j < pre.len && j != ii implies #[trigger] self.elem_bytes(
                j,
            ) == pre.elem_bytes(j) by {
                assert(rec_same(pre, *self, j));
                assert(pre.rec_off(j) + pre.rec_len(j) <= pre.elem_size);
                if j < ii {
                    if j < ii - 1 {
                        pre.lemma_elems_ordered(j, ii - 1);
                    }
                    assert(pre.rec_off(j) + pre.rec_len(j) <= ws);
                } else {
                    if ii + 1 < j {
                        pre.lemma_elems_ordered(ii + 1, j);
                    }
                    assert(we <= pre.rec_off(j));
                }
                assert(self.elem_bytes(j) =~= pre.elem_bytes(j));
            }
            assert(self.elem_bytes(ii) =~= element@);
            assert(self@ =~= pre@.update(ii, element@));
            // well-formedness: the new payload stays inside its window
            assert forall|i: int| 0 <= i < self.len implies #[trigger] self.rec_off(i)
                + self.rec_len(i) <= self.elem_size by {
                if i != ii {
                    assert(rec_same(pre, *self, i));
                    assert(pre.rec_off(i) + pre.rec_len(i) <= pre.elem_size);
                }
            }
            assert forall|i: int| 0 <= i < self.len - 1 implies #[trigger] self.rec_off(i)
                + self.rec_len(i) <= self.rec_off(i + 1) by {
                if i != ii && i + 1 != ii {
                    assert(rec_same(pre, *self, i));
                    assert(rec_same(pre, *self, i + 1));
                    assert(pre.rec_off(i) + pre.rec_len(i) <= pre.rec_off(i + 1));
                } else if i == ii {
                    assert(rec_same(pre, *self, i + 1));
                    assert(we <= pre.rec_off(ii + 1));
                } else {
                    assert(rec_same(pre, *self, i));
                    assert(pre.rec_off(i) + pre.rec_len(i) <= ws);
                }
            }
        }
        Ok(old_elem)
    }

    /// Writes `{offset, meta}` into the record slot for `index`, touching
    /// nothing but those `RECORD_SIZE` bytes. The slot must lie past the
    /// payload prefix.
    fn write_meta_data(&mut self, offset: usize, meta: usize, index: usize)
        requires
            old(self).elem_size + RECORD_SIZE * (index + 1) <= old(self).spec_cap(),
        ensures
            final(self).buf@.len() == old(self).buf@.len(),
            final(self).len == old(self).len,
            final(self).elem_size == old(self).elem_size,
            final(self).rec_off(index as int) == offset,
            final(self).rec_len(index as int) == meta,
            forall|j: int|
                0 <= j && j != index && RECORD_SIZE * (j + 1) <= old(self).spec_cap()
                    ==> #[trigger] rec_same(*old(self), *final(self), j),
            forall|k: int|
                0 <= k < old(self).buf@.len() && !(old(self).rec_pos(index as int) <= k < old(
                    self,
                ).rec_pos(index as int) + RECORD_SIZE) ==> final(self).buf@[k] == old(
                    self,
                ).buf@[k],
    {
        let pos: usize = self.offset_for_data(index);
        let ghost pre = *self;
        write_u64_at(&mut self.buf, pos, offset as u64);
        write_u64_at(&mut self.buf, pos + 8, meta as u64);
        proof {
            vstd::bytes::lemma_auto_spec_u64_to_from_le_bytes();
            let p = pre.rec_pos(index as int);
            // the two writes leave everything outside the slot unchanged
            assert forall|k: int|
                0 <= k < pre.buf@.len() && !(p <= k < p + RECORD_SIZE) implies self.buf@[k]
                == pre.buf@[k] by {}
            // the slot now decodes to the written pair
            assert(self.buf@.subrange(p, p + 8) =~= vstd::bytes::spec_u64_to_le_bytes(
                offset as u64,
            ));
            assert(self.buf@.subrange(p + 8, p + 16) =~= vstd::bytes::spec_u64_to_le_bytes(
                meta as u64,
            ));
            // every other record slot is disjoint from this one
            assert forall|j: int|
                0 <= j && j != index && RECORD_SIZE * (j + 1) <= pre.spec_cap()
                    implies #[trigger] rec_same(pre, *self, j) by {
                let q = pre.rec_pos(j);
                lemma_mul_strict_order(j, index as int);
                assert(q + RECORD_SIZE <= p || p + RECORD_SIZE <= q);
                assert(self.buf@.subrange(q, q + 8) =~= pre.buf@.subrange(q, q + 8));
                assert(self.buf@.subrange(q + 8, q + 16) =~= pre.buf@.subrange(q + 8, q + 16));
            }
        }
    }
}

/// In a well-formed buffer every record slot lies past the payload prefix
/// and within the allocation.
proof fn lemma_rec_slot_in_section(s: RawVechonk, j: int)
    requires
        s.wf(),
        0 <= j < s.len,
    ensures
        s.elem_size <= s.rec_pos(j),
        s.rec_pos(j) + RECORD_SIZE <= s.spec_cap(),
{
    assert(RECORD_SIZE * (j + 1) <= RECORD_SIZE * s.len) by {
        vstd::arithmetic::mul::lemma_mul_inequality(j + 1, s.len as int, RECORD_SIZE as int);
        vstd::arithmetic::mul::lemma_mul_is_commutative(RECORD_SIZE as int, j + 1);
        vstd::arithmetic::mul::lemma_mul_is_commutative(RECORD_SIZE as int, s.len as int);
    }
}

/// For distinct positions the record slots are disjoint: the slot offsets
/// differ by a whole multiple of the record size.
proof fn lemma_mul_strict_order(j: int, i: int)
    requires
        j != i,
        0 <= j,
        0 <= i,
    ensures
        j < i ==> RECORD_SIZE * (j + 1) <= RECORD_SIZE * i,
        i < j ==> RECORD_SIZE * (i + 1) <= RECORD_SIZE * j,
{
    if j < i {
        vstd::arithmetic::mul::lemma_mul_inequality(j + 1, i, RECORD_SIZE as int);
    } else {
        vstd::arithmetic::mul::lemma_mul_inequality(i + 1, j, RECORD_SIZE as int);
    }
    vstd::arithmetic::mul::lemma_mul_is_commutative(RECORD_SIZE as int, j + 1);
    vstd::arithmetic::mul::lemma_mul_is_commutative(RECORD_SIZE as int, i + 1);
    vstd::arithmetic::mul::lemma_mul_is_commutative(RECORD_SIZE as int, i);
    vstd::arithmetic::mul::lemma_mul_is_commutative(RECORD_SIZE as int, j);
}

} // verus!
