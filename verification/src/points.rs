//! The point buffer behind GJK's simplex and EPA's polytope: a
//! stack-allocated vector of `arrayvec`, seen by the verifier as the
//! sequence of points it holds.  Its capacity of 128 leaves room for
//! the three simplex points plus one insertion per expansion step, up
//! to the iteration cap.
//!
//! Each entry is an `(x, y)` coordinate pair in 16.16 fixed point.

use vstd::prelude::*;

verus! {

use arrayvec::ArrayVec;

#[verifier::external_type_specification]
#[verifier::external_body]
#[verifier::reject_recursive_types(T)]
pub struct ExArrayVec<T, const CAP: usize>(ArrayVec<T, CAP>);

/// The points a buffer holds, oldest first.
pub uninterp spec fn pts_view(v: ArrayVec<(i64, i64), 128>) -> Seq<(i64, i64)>;

/// Relies on arrayvec::ArrayVec::new: a freshly created vector is empty.
#[verifier::external_body]
pub(crate) fn pts_new() -> (r: ArrayVec<(i64, i64), 128>)
    ensures
        pts_view(r) == Seq::<(i64, i64)>::empty(),
{
    ArrayVec::new()
}

/// Relies on arrayvec::ArrayVec::len: the number of stored elements.
#[verifier::external_body]
pub(crate) fn pts_len(v: &ArrayVec<(i64, i64), 128>) -> (r: usize)
    ensures
        r == pts_view(*v).len(),
{
    v.len()
}

/// Relies on the slice indexing that arrayvec::ArrayVec derefs to:
/// the element at `i`.
#[verifier::external_body]
pub(crate) fn pts_get(v: &ArrayVec<(i64, i64), 128>, i: usize) -> (r: (i64, i64))
    requires
        i < pts_view(*v).len(),
    ensures
        r == pts_view(*v)[i as int],
{
    v[i]
}

/// Relies on arrayvec::ArrayVec::push: appends at the back; panics only
/// when the vector is full, which the precondition rules out.
#[verifier::external_body]
pub(crate) fn pts_push(v: &mut ArrayVec<(i64, i64), 128>, p: (i64, i64))
    requires
        pts_view(*old(v)).len() < 128,
    ensures
        pts_view(*final(v)) == pts_view(*old(v)).push(p),
{
    v.push(p);
}

/// Relies on arrayvec::ArrayVec::insert: shifts the elements from `i`
/// up by one and writes `p` at `i`; panics only when full or `i` is
/// past the end, which the preconditions rule out.
#[verifier::external_body]
pub(crate) fn pts_insert(v: &mut ArrayVec<(i64, i64), 128>, i: usize, p: (i64, i64))
    requires
        pts_view(*old(v)).len() < 128,
        i <= pts_view(*old(v)).len(),
    ensures
        pts_view(*final(v)) == pts_view(*old(v)).insert(i as int, p),
{
    v.insert(i, p);
}

/// Relies on arrayvec::ArrayVec::remove: takes the element at `i` out,
/// shifting the later ones down; panics only when `i` is out of
/// bounds, which the precondition rules out.
#[verifier::external_body]
pub(crate) fn pts_remove(v: &mut ArrayVec<(i64, i64), 128>, i: usize) -> (r: (i64, i64))
    requires
        i < pts_view(*old(v)).len(),
    ensures
        r == pts_view(*old(v))[i as int],
        pts_view(*final(v)) == pts_view(*old(v)).remove(i as int),
{
    v.remove(i)
}

} // verus!
