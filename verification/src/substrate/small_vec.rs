use arrayvec::ArrayVec;
use vstd::prelude::*;

use crate::coords::IVec2;
use crate::substrate::atom::Atom;

verus! {

#[verifier::external_type_specification]
#[verifier::external_body]
#[verifier::reject_recursive_types(T)]
pub struct ExArrayVec<T, const CAP: usize>(ArrayVec<T, CAP>);

/// The direction vectors held by a four-slot `ArrayVec`, in order.
pub uninterp spec fn dir_vec_items(v: ArrayVec<IVec2, 4>) -> Seq<IVec2>;

/// Wraps `ArrayVec::new`: an empty vector.
#[verifier::external_body]
pub(crate) fn dir_vec_new() -> (r: ArrayVec<IVec2, 4>)
    ensures
        dir_vec_items(r) == Seq::<IVec2>::empty(),
{
    ArrayVec::new()
}

/// Wraps `ArrayVec::push`, which panics when the vector is full: the item is appended.
#[verifier::external_body]
pub(crate) fn dir_vec_push(v: &mut ArrayVec<IVec2, 4>, item: IVec2)
    requires
        dir_vec_items(*old(v)).len() < 4,
    ensures
        dir_vec_items(*final(v)) == dir_vec_items(*old(v)).push(item),
{
    v.push(item)
}

/// Wraps `ArrayVec::len`: the number of direction vectors, never above the capacity of four.
#[verifier::external_body]
pub(crate) fn dir_vec_len(v: &ArrayVec<IVec2, 4>) -> (r: usize)
    ensures
        r == dir_vec_items(*v).len(),
        r <= 4,
{
    v.len()
}

/// Wraps indexing through `ArrayVec`'s slice view (which panics out of bounds): the vector at
/// `i`.
#[verifier::external_body]
pub(crate) fn dir_vec_get(v: &ArrayVec<IVec2, 4>, i: usize) -> (r: IVec2)
    requires
        i < dir_vec_items(*v).len(),
    ensures
        r == dir_vec_items(*v)[i as int],
{
    v[i]
}

} // verus!

verus! {

/// The atoms held by a cell (a four-slot `ArrayVec`), in order.
pub uninterp spec fn cell_atoms(c: ArrayVec<Atom, 4>) -> Seq<Atom>;

/// Wraps `ArrayVec::new`: a cell without atoms.
#[verifier::external_body]
pub(crate) fn cell_new() -> (r: ArrayVec<Atom, 4>)
    ensures
        cell_atoms(r) == Seq::<Atom>::empty(),
{
    ArrayVec::new()
}

/// Wraps `ArrayVec::push`, which panics when the vector is full: the atom is appended.
#[verifier::external_body]
pub(crate) fn cell_push(c: &mut ArrayVec<Atom, 4>, atom: Atom)
    requires
        cell_atoms(*old(c)).len() < 4,
    ensures
        cell_atoms(*final(c)) == cell_atoms(*old(c)).push(atom),
{
    c.push(atom)
}

/// Wraps `ArrayVec::len`: the number of atoms, never above the capacity of four.
#[verifier::external_body]
pub(crate) fn cell_len(c: &ArrayVec<Atom, 4>) -> (r: usize)
    ensures
        r == cell_atoms(*c).len(),
        r <= 4,
{
    c.len()
}

/// Wraps indexing through `ArrayVec`'s slice view (which panics out of bounds): the atom at `i`.
#[verifier::external_body]
pub(crate) fn cell_get(c: &ArrayVec<Atom, 4>, i: usize) -> (r: Atom)
    requires
        i < cell_atoms(*c).len(),
    ensures
        r == cell_atoms(*c)[i as int],
{
    c[i]
}

} // verus!
