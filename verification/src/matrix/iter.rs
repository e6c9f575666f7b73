use super::Matrix;
use vstd::prelude::*;
use vstd::std_specs::iter::IteratorSpec;

verus! {

impl<T> IntoIterator for Matrix<T> {
    type Item = T;

    type IntoIter = std::vec::IntoIter<T>;

    /// An iterator that hands out the cells themselves, row by row.
    fn into_iter(self) -> (iter: std::vec::IntoIter<T>)
        ensures
            iter.remaining() == self@.cells,
            iter.decrease() is Some,
    {
        self.data.into_iter()
    }
}

impl<'a, T> IntoIterator for &'a Matrix<T> {
    type Item = &'a T;

    type IntoIter = std::slice::Iter<'a, T>;

    /// An iterator over references to the cells, row by row.
    fn into_iter(self) -> (iter: std::slice::Iter<'a, T>)
        ensures
            iter.remaining() == self@.cells.as_ref(),
            iter.decrease() is Some,
    {
        self.data.iter()
    }
}

#[verifier::external_type_specification]
#[verifier::external_body]
#[verifier::reject_recursive_types(T)]
pub struct ExIterMut<'a, T: 'a>(std::slice::IterMut<'a, T>);

/// Calls `iter_mut` of `Vec`. As the standard library documents it, the
/// iterator yields an exclusive reference to every element, from the first
/// to the last, and then ends for good. Each reference holds the element as
/// it was, and what is written through it is what the element ends with. The
/// length of the vector cannot change.
#[verifier::external_body]
fn cells_mut<'a, T>(cells: &'a mut Vec<T>) -> (iter: std::slice::IterMut<'a, T>)
    ensures
        final(cells)@.len() == old(cells)@.len(),
        iter.obeys_prophetic_iter_laws(),
        iter.remaining().len() == old(cells)@.len(),
        forall|k: int|
            0 <= k < old(cells)@.len() ==> *(#[trigger] iter.remaining()[k]) == old(cells)@[k],
        forall|k: int|
            0 <= k < old(cells)@.len() ==> *final(#[trigger] iter.remaining()[k])
                == final(cells)@[k],
    no_unwind
{
    cells.iter_mut()
}

impl<'a, T> IntoIterator for &'a mut Matrix<T> {
    type Item = &'a mut T;

    type IntoIter = std::slice::IterMut<'a, T>;

    /// An iterator over exclusive references to the cells, row by row: one
    /// reference per cell, each holding the cell as it was. A cell ends with
    /// what was written through its reference, and the shape stays as it is.
    fn into_iter(self) -> (iter: std::slice::IterMut<'a, T>)
        ensures
            final(self)@.wf(),
            final(self)@.rows == old(self)@.rows,
            final(self)@.cols == old(self)@.cols,
            iter.obeys_prophetic_iter_laws(),
            iter.remaining().len() == old(self)@.cells.len(),
            forall|k: int|
                0 <= k < old(self)@.cells.len() ==> *(#[trigger] iter.remaining()[k])
                    == old(self)@.cells[k],
            forall|k: int|
                0 <= k < old(self)@.cells.len() ==> *final(#[trigger] iter.remaining()[k])
                    == final(self)@.cells[k],
    {
        proof {
            use_type_invariant(&*self);
        }
        cells_mut(&mut self.data)
    }
}

} // verus!
