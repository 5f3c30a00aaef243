//! The fixed-capacity list of candidate moves, an `arrayvec::ArrayVec`.
use arrayvec::ArrayVec;
use vstd::prelude::*;
use crate::game::moves::Move;

verus! {

#[verifier::external_type_specification]
#[verifier::external_body]
#[verifier::reject_recursive_types(T)]
pub struct ExArrayVec<T, const CAP: usize>(ArrayVec<T, CAP>);

/// The moves a move list holds, in order.
pub uninterp spec fn move_list_items(l: ArrayVec<Move, 133>) -> Seq<Move>;

/// `ArrayVec::new`: an empty list.
#[verifier::external_body]
pub(crate) fn new_move_list() -> (l: ArrayVec<Move, 133>)
    ensures
        move_list_items(l) == Seq::<Move>::empty(),
{
    ArrayVec::new()
}

/// `ArrayVec::push`: appends a move at the end. It panics when the list is
/// full, which `requires` rules out.
#[verifier::external_body]
pub(crate) fn push_move(l: &mut ArrayVec<Move, 133>, mv: Move)
    requires
        move_list_items(*old(l)).len() < 133,
    ensures
        move_list_items(*final(l)) == move_list_items(*old(l)).push(mv),
{
    l.push(mv)
}

/// `ArrayVec::len`: the number of moves held.
#[verifier::external_body]
pub(crate) fn move_list_len(l: &ArrayVec<Move, 133>) -> (n: usize)
    ensures
        n == move_list_items(*l).len(),
{
    l.len()
}

/// Indexing an `ArrayVec` (through its slice): the move at position `i`.
#[verifier::external_body]
pub(crate) fn move_at(l: &ArrayVec<Move, 133>, i: usize) -> (mv: Move)
    requires
        i < move_list_items(*l).len(),
    ensures
        mv == move_list_items(*l)[i as int],
{
    l[i]
}

} // verus!
