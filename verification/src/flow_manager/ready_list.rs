//! The short list of table positions that a pass over the flows works
//! through: a `SmallVec`, which keeps up to 32 positions without touching
//! the heap.

use smallvec::SmallVec;
use vstd::prelude::*;

verus! {

/// A list of table positions, held in a `SmallVec` with room for 32 of
/// them in place.
#[verifier::external_body]
pub struct ReadyList {
    items: SmallVec<[usize; 32]>,
}

/// The positions that a list holds, in the order in which they were put.
pub uninterp spec fn listed(list: ReadyList) -> Seq<usize>;

/// `SmallVec::new`: a list that holds nothing.
#[verifier::external_body]
pub(crate) fn new_list() -> (list: ReadyList)
    ensures
        listed(list) =~= Seq::empty(),
{
    ReadyList { items: SmallVec::new() }
}

/// `SmallVec::push`: the list holds what it held, and `position` behind it.
#[verifier::external_body]
pub(crate) fn list_push(list: &mut ReadyList, position: usize)
    ensures
        listed(*final(list)) == listed(*old(list)).push(position),
{
    list.items.push(position)
}

/// `SmallVec::len`: how many positions the list holds.
#[verifier::external_body]
pub(crate) fn list_len(list: &ReadyList) -> (len: usize)
    ensures
        len == listed(*list).len(),
{
    list.items.len()
}

/// Indexing a `SmallVec`, which reads the slice of its items: the position
/// at place `at`. A place beyond the end is left out, since indexing panics
/// there.
#[verifier::external_body]
pub(crate) fn list_at(list: &ReadyList, at: usize) -> (position: usize)
    requires
        at < listed(*list).len(),
    ensures
        position == listed(*list)[at as int],
{
    list.items[at]
}

} // verus!
