//! Laws the container obeys, stated over the logical views that the
//! operation contracts speak of and proved once and for all.

use vstd::prelude::*;

verus! {

use crate::raw::RawVechonk;
use crate::{bytes_cmp, elems_cmp};
use core::cmp::Ordering;

/// Appending extends the content and nothing else: the length grows by one,
/// every existing element keeps its place and value, and the new value sits
/// at the end. Applied along any sequence of appends — growth included,
/// since `push` promises this shape whether or not it reallocated — the
/// container holds exactly the appended values, in order.
pub proof fn lemma_append_extends(s: Seq<Seq<u8>>, v: Seq<u8>)
    ensures
        s.push(v).len() == s.len() + 1,
        forall|i: int| 0 <= i < s.len() ==> s.push(v)[i] == s[i],
        s.push(v)[s.len() as int] == v,
{
}

/// An append followed immediately by a removal of the last element returns
/// exactly the value just appended and restores the previous content — the
/// interior elements were never touched.
pub proof fn lemma_push_pop_round_trip(s: Seq<Seq<u8>>, v: Seq<u8>)
    ensures
        s.push(v).last() == v,
        s.push(v).drop_last() == s,
        s.push(v).len() == s.len() + 1,
{
    assert(s.push(v).drop_last() =~= s);
}

/// Comparing a byte string with itself gives `Equal`.
proof fn lemma_bytes_cmp_self(a: Seq<u8>)
    ensures
        bytes_cmp(a, a) == Ordering::Equal,
    decreases a.len(),
{
    if a.len() > 0 {
        lemma_bytes_cmp_self(a.drop_first());
    }
}

/// Containers with the same content in the same order compare as `Equal`
/// under the lexicographic ordering; together with the equality contract,
/// two containers built from the same list of values are equal and ordered
/// as `Equal`.
pub proof fn lemma_equal_content_compares_equal(a: Seq<Seq<u8>>, b: Seq<Seq<u8>>)
    requires
        a == b,
    ensures
        elems_cmp(a, b) == Ordering::Equal,
    decreases a.len(),
{
    if a.len() > 0 {
        lemma_bytes_cmp_self(a[0]);
        lemma_equal_content_compares_equal(a.drop_first(), b.drop_first());
    }
}

/// Comparing byte strings as `Equal` means they are the same bytes.
proof fn lemma_bytes_cmp_equal_is_eq(a: Seq<u8>, b: Seq<u8>)
    requires
        bytes_cmp(a, b) == Ordering::Equal,
    ensures
        a == b,
    decreases a.len(),
{
    if a.len() == 0 && b.len() == 0 {
        assert(a =~= b);
    } else {
        lemma_bytes_cmp_equal_is_eq(a.drop_first(), b.drop_first());
        assert forall|i: int| 0 <= i < a.len() implies a[i] == b[i] by {
            if i > 0 {
                assert(a.drop_first()[i - 1] == b.drop_first()[i - 1]);
            }
        }
        assert(a =~= b);
    }
}

/// The ordering agrees with equality in the other direction too: containers
/// that compare as `Equal` hold the same payloads in the same order.
pub proof fn lemma_compares_equal_is_equal_content(a: Seq<Seq<u8>>, b: Seq<Seq<u8>>)
    requires
        elems_cmp(a, b) == Ordering::Equal,
    ensures
        a == b,
    decreases a.len(),
{
    if a.len() == 0 && b.len() == 0 {
        assert(a =~= b);
    } else {
        lemma_bytes_cmp_equal_is_eq(a[0], b[0]);
        lemma_compares_equal_is_equal_content(a.drop_first(), b.drop_first());
        assert forall|i: int| 0 <= i < a.len() implies a[i] == b[i] by {
            if i > 0 {
                assert(a.drop_first()[i - 1] == b.drop_first()[i - 1]);
            }
        }
        assert(a =~= b);
    }
}

/// Writing a payload of unchanged size back into its own slot always fits:
/// the slot's free window starts at or before the payload and ends at or
/// after it, and alignment one asks for no padding. This is what makes the
/// mutate traversal total for size-preserving updates.
pub proof fn lemma_same_size_replace_fits(c: RawVechonk, index: int)
    requires
        c.wf(),
        0 <= index < c.len,
    ensures
        c.replace_fits(index, c@[index].len() as int, 1),
{
    assert(c@[index].len() == c.rec_len(index));
    if index > 0 {
        assert(c.rec_off(index - 1) + c.rec_len(index - 1) <= c.rec_off(index));
    }
    if index < c.len - 1 {
        assert(c.rec_off(index) + c.rec_len(index) <= c.rec_off(index + 1));
    } else {
        assert(c.rec_off(index) + c.rec_len(index) <= c.elem_size);
    }
}

} // verus!
