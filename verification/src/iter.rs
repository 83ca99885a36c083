//! The three traversal views over a container: read, mutate, and consume.
//! All walk logical indices in order.

use vstd::prelude::*;

verus! {

use crate::raw::RawVechonk;
use crate::Vechonk;

/// A read traversal over the elements of a [`Vechonk`], yielding an owned
/// copy of each payload in index order. Finite and not restartable: request
/// a fresh one to traverse again.
pub struct Iter {
    raw: RawVechonk,
    current_index: usize,
}

impl Iter {
    /// The cursor has not run past the end.
    pub closed spec fn wf(self) -> bool {
        &&& self.raw.wf()
        &&& self.current_index <= self.raw@.len()
    }

    /// The payloads not yet yielded, in order.
    pub closed spec fn remaining(self) -> Seq<Seq<u8>> {
        self.raw@.skip(self.current_index as int)
    }

    pub(crate) fn new(chonk: &Vechonk) -> (it: Iter)
        requires
            chonk.wf(),
        ensures
            it.wf(),
            it.remaining() == chonk@,
    {
        let it = Iter { raw: chonk.raw.copy(), current_index: 0 };
        proof {
            assert(it.remaining() =~= chonk@);
        }
        it
    }

    /// The next payload, or `None` when the traversal is exhausted.
    pub fn next(&mut self) -> (r: Option<Vec<u8>>)
        requires
            old(self).wf(),
        ensures
            final(self).wf(),
            old(self).remaining().len() == 0 ==> r is None && *final(self) == *old(self),
            old(self).remaining().len() > 0 ==> {
                &&& r matches Some(v) && v@ == old(self).remaining().first()
                &&& final(self).remaining() == old(self).remaining().drop_first()
            },
    {
        if self.current_index == self.raw.len {
            return None;
        }
        let v: Vec<u8> = self.raw.box_elem_unchecked(self.current_index);
        self.current_index = self.current_index + 1;
        proof {
            assert(self.remaining() =~= old(self).remaining().drop_first());
        }
        Some(v)
    }

    /// Exact bounds on how many payloads are still to come.
    pub fn size_hint(&self) -> (r: (usize, Option<usize>))
        requires
            self.wf(),
        ensures
            r.0 == self.remaining().len(),
            r.1 == Some(r.0),
    {
        let count: usize = self.raw.len - self.current_index;
        (count, Some(count))
    }

    /// Exactly how many payloads are still to come.
    pub fn len(&self) -> (r: usize)
        requires
            self.wf(),
        ensures
            r == self.remaining().len(),
    {
        self.raw.len - self.current_index
    }
}

/// A mutate traversal over a [`Vechonk`]: yields each logical index in
/// order. A write at the yielded index goes through
/// [`Vechonk::try_replace`], the checked in-place update, so a traversal can
/// never change a slot's footprint behind the container's back.
pub struct IterMut {
    current_index: usize,
    total: usize,
}

impl IterMut {
    /// The cursor has not run past the end.
    pub closed spec fn wf(self) -> bool {
        self.current_index <= self.total
    }

    /// How many indices were already yielded.
    pub closed spec fn yielded_count(self) -> int {
        self.current_index as int
    }

    /// How many indices are still to come.
    pub closed spec fn remaining_count(self) -> int {
        self.total - self.current_index
    }

    pub(crate) fn new(chonk: &mut Vechonk) -> (it: IterMut)
        ensures
            *final(chonk) == *old(chonk),
            it.wf(),
            it.yielded_count() == 0,
            it.remaining_count() == old(chonk)@.len(),
    {
        IterMut { current_index: 0, total: chonk.raw.len }
    }

    /// The next index to mutate, or `None` when the traversal is exhausted.
    pub fn next(&mut self) -> (r: Option<usize>)
        requires
            old(self).wf(),
        ensures
            final(self).wf(),
            old(self).remaining_count() == 0 ==> r is None && *final(self) == *old(self),
            old(self).remaining_count() > 0 ==> {
                &&& r matches Some(i) && i == old(self).yielded_count()
                &&& final(self).yielded_count() == old(self).yielded_count() + 1
                &&& final(self).remaining_count() == old(self).remaining_count() - 1
            },
    {
        if self.current_index == self.total {
            return None;
        }
        let i: usize = self.current_index;
        self.current_index = self.current_index + 1;
        Some(i)
    }

    /// Exact bounds on how many indices are still to come.
    pub fn size_hint(&self) -> (r: (usize, Option<usize>))
        requires
            self.wf(),
        ensures
            r.0 == self.remaining_count(),
            r.1 == Some(r.0),
    {
        let count: usize = self.total - self.current_index;
        (count, Some(count))
    }

    /// Exactly how many indices are still to come.
    pub fn len(&self) -> (r: usize)
        requires
            self.wf(),
        ensures
            r == self.remaining_count(),
    {
        self.total - self.current_index
    }
}

/// A consuming traversal: owns the whole container up front and yields each
/// payload as an owned value in index order. When the view goes away, the
/// buffer goes with it; payloads not yet yielded are plain bytes in that
/// buffer and need no cleanup of their own.
pub struct IntoIter {
    raw: RawVechonk,
    current_index: usize,
}

impl IntoIter {
    /// The cursor has not run past the end.
    pub closed spec fn wf(self) -> bool {
        &&& self.raw.wf()
        &&& self.current_index <= self.raw@.len()
    }

    /// The payloads not yet yielded, in order.
    pub closed spec fn remaining(self) -> Seq<Seq<u8>> {
        self.raw@.skip(self.current_index as int)
    }

    pub(crate) fn from_raw(raw: RawVechonk) -> (it: IntoIter)
        requires
            raw.wf(),
        ensures
            it.wf(),
            it.remaining() == raw@,
    {
        let it = IntoIter { raw, current_index: 0 };
        proof {
            assert(it.remaining() =~= it.raw@);
        }
        it
    }

    pub(crate) fn new(chonk: Vechonk) -> (it: IntoIter)
        requires
            chonk.wf(),
        ensures
            it.wf(),
            it.remaining() == chonk@,
    {
        Self::from_raw(chonk.raw)
    }

    /// The next payload, now owned by the caller, or `None` when the
    /// traversal is exhausted.
    pub fn next(&mut self) -> (r: Option<Vec<u8>>)
        requires
            old(self).wf(),
        ensures
            final(self).wf(),
            old(self).remaining().len() == 0 ==> r is None && *final(self) == *old(self),
            old(self).remaining().len() > 0 ==> {
                &&& r matches Some(v) && v@ == old(self).remaining().first()
                &&& final(self).remaining() == old(self).remaining().drop_first()
            },
    {
        if self.current_index == self.raw.len {
            return None;
        }
        let v: Vec<u8> = self.raw.box_elem_unchecked(self.current_index);
        self.current_index = self.current_index + 1;
        proof {
            assert(self.remaining() =~= old(self).remaining().drop_first());
        }
        Some(v)
    }

    /// Exact bounds on how many payloads are still to come.
    pub fn size_hint(&self) -> (r: (usize, Option<usize>))
        requires
            self.wf(),
        ensures
            r.0 == self.remaining().len(),
            r.1 == Some(r.0),
    {
        let count: usize = self.raw.len - self.current_index;
        (count, Some(count))
    }

    /// Exactly how many payloads are still to come.
    pub fn len(&self) -> (r: usize)
        requires
            self.wf(),
        ensures
            r == self.remaining().len(),
    {
        self.raw.len - self.current_index
    }
}

} // verus!
