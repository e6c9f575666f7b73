use super::{lemma_offset_in_bounds, Matrix};
use std::ops::{Deref, Index, IndexMut};
use vstd::pervasive::runtime_assert;
use vstd::prelude::*;

verus! {

impl<T> Deref for Matrix<T> {
    type Target = Vec<T>;

    /// The cells as one flat vector, row after row.
    fn deref(&self) -> (cells: &Vec<T>)
        ensures
            cells@ == self@.cells,
    {
        &self.data
    }
}

impl<T> vstd::std_specs::core::IndexSpecImpl<(usize, usize)> for Matrix<T> {
    open spec fn index_req(&self, index: &(usize, usize)) -> bool {
        self@.in_range(index.0 as int, index.1 as int)
    }
}

impl<T> Index<(usize, usize)> for Matrix<T> {
    type Output = T;

    /// The cell at `(row, col)`, which must lie inside the matrix.
    fn index(&self, index: (usize, usize)) -> (cell: &T)
        ensures
            *cell == self@.at(index.0 as int, index.1 as int),
    {
        proof {
            use_type_invariant(self);
            lemma_offset_in_bounds(
                self.rows as nat,
                self.cols as nat,
                index.0 as int,
                index.1 as int,
            );
        }
        runtime_assert(index.0 < self.rows && index.1 < self.cols);
        &self.data[index.1 + index.0 * self.cols]
    }
}

impl<T> IndexMut<(usize, usize)> for Matrix<T> {
    /// Exclusive access to the cell at `(row, col)`, which must lie inside
    /// the matrix. What is written through the reference becomes the value
    /// of that one cell.
    fn index_mut(&mut self, index: (usize, usize)) -> (cell: &mut T)
        requires
            old(self)@.in_range(index.0 as int, index.1 as int),
        ensures
            *cell == old(self)@.at(index.0 as int, index.1 as int),
            final(self)@ == old(self)@.with_cell(index.0 as int, index.1 as int, *final(cell)),
    {
        proof {
            use_type_invariant(&*self);
            lemma_offset_in_bounds(
                self.rows as nat,
                self.cols as nat,
                index.0 as int,
                index.1 as int,
            );
        }
        runtime_assert(index.0 < self.rows && index.1 < self.cols);
        &mut self.data[index.1 + index.0 * self.cols]
    }
}

impl<T> vstd::std_specs::core::IndexSpecImpl<[usize; 2]> for Matrix<T> {
    open spec fn index_req(&self, index: &[usize; 2]) -> bool {
        self@.in_range(index[0] as int, index[1] as int)
    }
}

impl<T> Index<[usize; 2]> for Matrix<T> {
    type Output = T;

    /// The cell at `[row, col]`, which must lie inside the matrix.
    fn index(&self, index: [usize; 2]) -> (cell: &T)
        ensures
            *cell == self@.at(index[0] as int, index[1] as int),
    {
        proof {
            use_type_invariant(self);
            lemma_offset_in_bounds(
                self.rows as nat,
                self.cols as nat,
                index[0] as int,
                index[1] as int,
            );
        }
        runtime_assert(index[0] < self.rows && index[1] < self.cols);
        &self.data[index[1] + index[0] * self.cols]
    }
}

impl<T> IndexMut<[usize; 2]> for Matrix<T> {
    /// Exclusive access to the cell at `[row, col]`, which must lie inside
    /// the matrix. What is written through the reference becomes the value
    /// of that one cell.
    fn index_mut(&mut self, index: [usize; 2]) -> (cell: &mut T)
        requires
            old(self)@.in_range(index[0] as int, index[1] as int),
        ensures
            *cell == old(self)@.at(index[0] as int, index[1] as int),
            final(self)@ == old(self)@.with_cell(index[0] as int, index[1] as int, *final(cell)),
    {
        proof {
            use_type_invariant(&*self);
            lemma_offset_in_bounds(
                self.rows as nat,
                self.cols as nat,
                index[0] as int,
                index[1] as int,
            );
        }
        runtime_assert(index[0] < self.rows && index[1] < self.cols);
        &mut self.data[index[1] + index[0] * self.cols]
    }
}

} // verus!
