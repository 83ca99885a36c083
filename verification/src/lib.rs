//! A growable container that packs variable-size byte payloads into a single
//! allocation.
//!
//! Ordinary growable arrays store fixed-size elements. [`Vechonk`] instead
//! stores payloads whose byte length differs from element to element, packing
//! the payload bytes themselves contiguously from the front of one buffer
//! while a compact table of index records (byte offset + byte length) grows
//! from the back. The two regions grow toward each other; when they would
//! meet, the whole buffer is reallocated.
//!
//! Each payload may carry its own alignment requirement, honoured as a byte
//! offset within the buffer.
//!
//! Payloads are plain bytes, so no per-payload cleanup exists to run:
//! releasing the buffer releases everything the container owns.

use vstd::prelude::*;

mod bufops;
pub mod iter;
pub mod laws;
pub mod layout;
pub mod raw;

verus! {

use crate::iter::{IntoIter, Iter, IterMut};
use crate::layout::{spec_align_pad, spec_force_align, RECORD_ALIGN, RECORD_SIZE};
use crate::raw::RawVechonk;
use core::cmp::Ordering;
use vstd::slice::slice_subrange;

/// Lexicographic comparison of two byte strings, shorter-is-less on a
/// common-prefix tie. This is the order `[u8]` and `str` carry.
pub open spec fn bytes_cmp(a: Seq<u8>, b: Seq<u8>) -> Ordering
    decreases a.len(),
{
    if a.len() == 0 && b.len() == 0 {
        Ordering::Equal
    } else if a.len() == 0 {
        Ordering::Less
    } else if b.len() == 0 {
        Ordering::Greater
    } else if a[0] < b[0] {
        Ordering::Less
    } else if a[0] > b[0] {
        Ordering::Greater
    } else {
        bytes_cmp(a.drop_first(), b.drop_first())
    }
}

/// Lexicographic comparison of two payload sequences: payloads in index
/// order, shorter container is less on a common-prefix tie.
pub open spec fn elems_cmp(a: Seq<Seq<u8>>, b: Seq<Seq<u8>>) -> Ordering
    decreases a.len(),
{
    if a.len() == 0 && b.len() == 0 {
        Ordering::Equal
    } else if a.len() == 0 {
        Ordering::Less
    } else if b.len() == 0 {
        Ordering::Greater
    } else {
        match bytes_cmp(a[0], b[0]) {
            Ordering::Equal => elems_cmp(a.drop_first(), b.drop_first()),
            c => c,
        }
    }
}

/// A container of variable-size byte payloads with value semantics: one
/// buffer-manager handle, owned exclusively.
#[derive(Hash)]
pub struct Vechonk {
    pub raw: RawVechonk,
}

impl View for Vechonk {
    type V = Seq<Seq<u8>>;

    /// The logical content: each payload's bytes, in index order.
    open spec fn view(&self) -> Seq<Seq<u8>> {
        self.raw@
    }
}

impl Vechonk {
    /// The handle's regions are consistent; established by construction and
    /// preserved by every operation.
    pub open spec fn wf(self) -> bool {
        self.raw.wf()
    }

    /// The number of elements.
    pub fn len(&self) -> (r: usize)
        ensures
            r == self@.len(),
    {
        self.raw.len
    }

    /// Whether the container holds no elements.
    pub fn is_empty(&self) -> (r: bool)
        ensures
            r == (self@.len() == 0),
    {
        self.len() == 0
    }

    /// A new empty container that allocates nothing.
    pub fn new() -> (r: Self)
        ensures
            r.wf(),
            r@ == Seq::<Seq<u8>>::empty(),
            r.raw.spec_cap() == 0,
            r.raw.elem_size == 0,
    {
        Vechonk { raw: RawVechonk::new() }
    }

    /// A new container with `capacity` bytes allocated up front, shrunk to
    /// the next multiple of the record alignment.
    pub fn with_capacity(capacity: usize) -> (r: Self)
        ensures
            r.wf(),
            r@ == Seq::<Seq<u8>>::empty(),
            r.raw.spec_cap() == spec_force_align(capacity as int, RECORD_ALIGN as int),
            r.raw.elem_size == 0,
    {
        Vechonk { raw: RawVechonk::with_capacity(capacity) }
    }

    /// Appends a payload with its alignment requirement, growing the buffer
    /// if needed. The bound keeps the grown capacity representable; it only
    /// excludes requests no address space could satisfy.
    pub fn push(&mut self, element: Vec<u8>, align: usize)
        requires
            old(self).wf(),
            align >= 1,
            2 * (old(self).raw.spec_cap() + spec_align_pad(
                old(self).raw.elem_size as int,
                align as int,
            ) + element@.len() + RECORD_SIZE) <= usize::MAX,
        ensures
            final(self).wf(),
            final(self)@ == old(self)@.push(element@),
            final(self).raw.elem_size == old(self).raw.elem_size + spec_align_pad(
                old(self).raw.elem_size as int,
                align as int,
            ) + element@.len(),
            ({
                let need = spec_align_pad(old(self).raw.elem_size as int, align as int)
                    + element@.len() + RECORD_SIZE;
                if need <= old(self).raw.spec_cap() - old(self).raw.elem_size - RECORD_SIZE * old(
                    self,
                )@.len() {
                    final(self).raw.spec_cap() == old(self).raw.spec_cap()
                } else {
                    final(self).raw.spec_cap() == spec_force_align(
                        2 * (old(self).raw.spec_cap() + need),
                        RECORD_ALIGN as int,
                    )
                }
            }),
    {
        self.raw.push(element, align)
    }

    /// Removes and returns the last payload, or `None` when empty.
    #[verifier::rlimit(50)]
    pub fn pop(&mut self) -> (r: Option<Vec<u8>>)
        requires
            old(self).wf(),
        ensures
            final(self).wf(),
            old(self)@.len() == 0 ==> r is None && *final(self) == *old(self),
            old(self)@.len() > 0 ==> {
                &&& r matches Some(v) && v@ == old(self)@.last()
                &&& final(self)@ == old(self)@.drop_last()
            },
    {
        self.raw.pop()
    }

    /// Replaces the payload at `index` in place. Returns the displaced old
    /// payload on success; returns the new payload unchanged, with nothing
    /// mutated, when the index is out of bounds or the payload does not fit
    /// the slot's free window.
    #[verifier::rlimit(50)]
    pub fn try_replace(&mut self, index: usize, element: Vec<u8>, align: usize) -> (r: Result<
        Vec<u8>,
        Vec<u8>,
    >)
        requires
            old(self).wf(),
            align >= 1,
        ensures
            final(self).wf(),
            index >= old(self)@.len() ==> {
                &&& r matches Err(e) && e == element
                &&& *final(self) == *old(self)
            },
            index < old(self)@.len() && old(self).raw.replace_fits(
                index as int,
                element@.len() as int,
                align as int,
            ) ==> {
                &&& r matches Ok(v) && v@ == old(self)@[index as int]
                &&& final(self)@ == old(self)@.update(index as int, element@)
            },
            index < old(self)@.len() && !old(self).raw.replace_fits(
                index as int,
                element@.len() as int,
                align as int,
            ) ==> {
                &&& r matches Err(e) && e == element
                &&& *final(self) == *old(self)
            },
    {
        self.raw.try_replace_elem(element, index, align)
    }

    /// A read traversal over the elements, yielding owned copies in index
    /// order.
    pub fn iter(&self) -> (it: Iter)
        requires
            self.wf(),
        ensures
            it.wf(),
            it.remaining() == self@,
    {
        Iter::new(self)
    }

    /// A mutate traversal: yields each index in order; size-preserving
    /// writes at an index go through [`Self::try_replace`], which cannot
    /// change a slot's footprint behind the container's back.
    pub fn iter_mut(&mut self) -> (it: IterMut)
        requires
            old(self).wf(),
        ensures
            *final(self) == *old(self),
            it.wf(),
            it.remaining_count() == old(self)@.len(),
            it.yielded_count() == 0,
    {
        IterMut::new(self)
    }

    /// A consuming traversal: takes the container, yields each payload as an
    /// owned value in index order, and releases the buffer when dropped.
    pub fn into_iter(self) -> (it: IntoIter)
        requires
            self.wf(),
        ensures
            it.wf(),
            it.remaining() == self@,
    {
        IntoIter::new(self)
    }

    /// A reference to the payload at `index`, or `None` out of bounds.
    pub fn get(&self, index: usize) -> (r: Option<&[u8]>)
        requires
            self.wf(),
        ensures
            index < self@.len() ==> (r matches Some(s) && s@ == self@[index as int]),
            index >= self@.len() ==> r is None,
    {
        if index < self.len() {
            Some(self.get_unchecked(index))
        } else {
            None
        }
    }

    /// A reference to the payload at `index`; the index must be in bounds.
    pub fn get_unchecked(&self, index: usize) -> (r: &[u8])
        requires
            self.wf(),
            index < self@.len(),
        ensures
            r@ == self@[index as int],
    {
        let d = self.raw.get_data(index);
        slice_subrange(self.raw.buf.as_slice(), d.offset, d.offset + d.meta)
    }

    /// The payload at `index`; callers must stay in bounds, as with array
    /// indexing.
    pub fn index(&self, index: usize) -> (r: &[u8])
        requires
            self.wf(),
            index < self@.len(),
        ensures
            r@ == self@[index as int],
    {
        self.get_unchecked(index)
    }

    /// Equality: equal length and pairwise-equal payloads in index order.
    pub fn eq(&self, other: &Vechonk) -> (r: bool)
        requires
            self.wf(),
            other.wf(),
        ensures
            r == (self@ == other@),
    {
        if self.len() != other.len() {
            proof {
                assert(self@.len() != other@.len());
            }
            return false;
        }
        let n: usize = self.len();
        let mut i: usize = 0;
        while i < n
            invariant
                self.wf(),
                other.wf(),
                n == self@.len(),
                n == other@.len(),
                i <= n,
                forall|j: int| 0 <= j < i ==> self@[j] == other@[j],
            decreases n - i,
        {
            if !bytes_eq(self.get_unchecked(i), other.get_unchecked(i)) {
                proof {
                    assert(self@[i as int] != other@[i as int]);
                }
                return false;
            }
            i += 1;
        }
        proof {
            assert(self@ =~= other@);
        }
        true
    }

    /// Lexicographic ordering over payloads in index order, shorter-is-less
    /// on a common-prefix tie.
    pub fn cmp(&self, other: &Vechonk) -> (r: Ordering)
        requires
            self.wf(),
            other.wf(),
        ensures
            r == elems_cmp(self@, other@),
    {
        let a_len: usize = self.len();
        let b_len: usize = other.len();
        let len: usize = if a_len < b_len {
            a_len
        } else {
            b_len
        };
        proof {
            assert(self@.skip(0) =~= self@);
            assert(other@.skip(0) =~= other@);
        }
        let mut i: usize = 0;
        while i < len
            invariant
                self.wf(),
                other.wf(),
                a_len == self@.len(),
                b_len == other@.len(),
                len == if a_len < b_len {
                    a_len as int
                } else {
                    b_len as int
                },
                i <= len,
                elems_cmp(self@, other@) == elems_cmp(self@.skip(i as int), other@.skip(i as int)),
            decreases len - i,
        {
            let ordering: Ordering = bytes_compare(self.get_unchecked(i), other.get_unchecked(i));
            proof {
                lemma_elems_cmp_step(self@, other@, i as int);
            }
            match ordering {
                Ordering::Equal => {},
                non_eq => {
                    return non_eq;
                },
            }
            i += 1;
        }
        proof {
            lemma_elems_cmp_tail(self@, other@, i as int);
        }
        if a_len < b_len {
            Ordering::Less
        } else if a_len > b_len {
            Ordering::Greater
        } else {
            Ordering::Equal
        }
    }

    /// Ordering as an optional result; always present, ordering is total.
    pub fn partial_cmp(&self, other: &Vechonk) -> (r: Option<Ordering>)
        requires
            self.wf(),
            other.wf(),
        ensures
            r == Some(elems_cmp(self@, other@)),
    {
        Some(self.cmp(other))
    }
}

impl Default for Vechonk {
    /// The empty container.
    fn default() -> (r: Self)
        ensures
            r.wf(),
            r@ == Seq::<Seq<u8>>::empty(),
    {
        Self::new()
    }
}

/// Whether two byte slices hold the same bytes.
fn bytes_eq(a: &[u8], b: &[u8]) -> (r: bool)
    ensures
        r == (a@ == b@),
{
    let a_len: usize = a.len();
    let b_len: usize = b.len();
    if a_len != b_len {
        proof {
            assert(a@.len() != b@.len());
        }
        return false;
    }
    let mut i: usize = 0;
    while i < a_len
        invariant
            a_len == a@.len(),
            a_len == b@.len(),
            i <= a_len,
            forall|j: int| 0 <= j < i ==> a@[j] == b@[j],
        decreases a_len - i,
    {
        if *vstd::slice::slice_index_get(a, i) != *vstd::slice::slice_index_get(b, i) {
            proof {
                assert(a@[i as int] != b@[i as int]);
            }
            return false;
        }
        i += 1;
    }
    proof {
        assert(a@ =~= b@);
    }
    true
}

/// Lexicographic comparison of two byte slices.
fn bytes_compare(a: &[u8], b: &[u8]) -> (r: Ordering)
    ensures
        r == bytes_cmp(a@, b@),
{
    let a_len: usize = a.len();
    let b_len: usize = b.len();
    let len: usize = if a_len < b_len {
        a_len
    } else {
        b_len
    };
    proof {
        assert(a@.skip(0) =~= a@);
        assert(b@.skip(0) =~= b@);
    }
    let mut i: usize = 0;
    while i < len
        invariant
            a_len == a@.len(),
            b_len == b@.len(),
            len == if a_len < b_len {
                a_len as int
            } else {
                b_len as int
            },
            i <= len,
            bytes_cmp(a@, b@) == bytes_cmp(a@.skip(i as int), b@.skip(i as int)),
        decreases len - i,
    {
        let x: u8 = *vstd::slice::slice_index_get(a, i);
        let y: u8 = *vstd::slice::slice_index_get(b, i);
        proof {
            lemma_bytes_cmp_step(a@, b@, i as int);
        }
        if x < y {
            return Ordering::Less;
        }
        if x > y {
            return Ordering::Greater;
        }
        i += 1;
    }
    proof {
        lemma_bytes_cmp_tail(a@, b@, i as int);
    }
    if a_len < b_len {
        Ordering::Less
    } else if a_len > b_len {
        Ordering::Greater
    } else {
        Ordering::Equal
    }
}

/// Comparing from position `i` looks at the bytes at `i` first: unequal
/// bytes decide, equal bytes hand over to position `i + 1`.
proof fn lemma_bytes_cmp_step(a: Seq<u8>, b: Seq<u8>, i: int)
    requires
        0 <= i < a.len(),
        0 <= i < b.len(),
    ensures
        a[i] < b[i] ==> bytes_cmp(a.skip(i), b.skip(i)) == Ordering::Less,
        a[i] > b[i] ==> bytes_cmp(a.skip(i), b.skip(i)) == Ordering::Greater,
        a[i] == b[i] ==> bytes_cmp(a.skip(i), b.skip(i)) == bytes_cmp(
            a.skip(i + 1),
            b.skip(i + 1),
        ),
{
    assert(a.skip(i).len() > 0);
    assert(a.skip(i)[0] == a[i]);
    assert(b.skip(i)[0] == b[i]);
    if a[i] == b[i] {
        assert(a.skip(i).drop_first() =~= a.skip(i + 1));
        assert(b.skip(i).drop_first() =~= b.skip(i + 1));
    }
}

/// Once one side is exhausted, only the lengths decide.
proof fn lemma_bytes_cmp_tail(a: Seq<u8>, b: Seq<u8>, i: int)
    requires
        0 <= i <= a.len(),
        0 <= i <= b.len(),
        i == a.len() || i == b.len(),
    ensures
        a.len() < b.len() ==> bytes_cmp(a.skip(i), b.skip(i)) == Ordering::Less,
        a.len() > b.len() ==> bytes_cmp(a.skip(i), b.skip(i)) == Ordering::Greater,
        a.len() == b.len() ==> bytes_cmp(a.skip(i), b.skip(i)) == Ordering::Equal,
{
    assert(a.skip(i).len() == a.len() - i);
    assert(b.skip(i).len() == b.len() - i);
}

/// Comparing containers from position `i` looks at the payloads at `i`
/// first: unequal payloads decide, equal payloads hand over to `i + 1`.
proof fn lemma_elems_cmp_step(a: Seq<Seq<u8>>, b: Seq<Seq<u8>>, i: int)
    requires
        0 <= i < a.len(),
        0 <= i < b.len(),
    ensures
        bytes_cmp(a[i], b[i]) != Ordering::Equal ==> elems_cmp(a.skip(i), b.skip(i)) == bytes_cmp(
            a[i],
            b[i],
        ),
        bytes_cmp(a[i], b[i]) == Ordering::Equal ==> elems_cmp(a.skip(i), b.skip(i)) == elems_cmp(
            a.skip(i + 1),
            b.skip(i + 1),
        ),
{
    assert(a.skip(i).len() > 0);
    assert(a.skip(i)[0] == a[i]);
    assert(b.skip(i)[0] == b[i]);
    assert(a.skip(i).drop_first() =~= a.skip(i + 1));
    assert(b.skip(i).drop_first() =~= b.skip(i + 1));
}

/// Once one container is exhausted, only the lengths decide.
proof fn lemma_elems_cmp_tail(a: Seq<Seq<u8>>, b: Seq<Seq<u8>>, i: int)
    requires
        0 <= i <= a.len(),
        0 <= i <= b.len(),
        i == a.len() || i == b.len(),
    ensures
        a.len() < b.len() ==> elems_cmp(a.skip(i), b.skip(i)) == Ordering::Less,
        a.len() > b.len() ==> elems_cmp(a.skip(i), b.skip(i)) == Ordering::Greater,
        a.len() == b.len() ==> elems_cmp(a.skip(i), b.skip(i)) == Ordering::Equal,
{
    assert(a.skip(i).len() == a.len() - i);
    assert(b.skip(i).len() == b.len() - i);
}

} // verus!
