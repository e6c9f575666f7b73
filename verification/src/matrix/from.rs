use super::Matrix;
use vstd::prelude::*;
use vstd::std_specs::convert::FromSpec;

verus! {

impl<T: Copy> Matrix<T> {
    /// A matrix of the same shape whose cells are the cells of this one,
    /// each converted to `U`. The conversion exists exactly for the pairs of
    /// element types between which the standard library offers a lossless
    /// one, such as `u8` to `u32`.
    pub fn widen<U: From<T>>(&self) -> (out: Matrix<U>)
        ensures
            out@.wf(),
            out@.rows == self@.rows,
            out@.cols == self@.cols,
            out@.cells.len() == self@.cells.len(),
            U::obeys_from_spec() ==> forall|k: int|
                0 <= k < self@.cells.len() ==> #[trigger] out@.cells[k] == U::from_spec(
                    self@.cells[k],
                ),
    {
        proof {
            use_type_invariant(self);
        }
        let len: usize = self.data.len();
        let mut data: Vec<U> = Vec::with_capacity(len);
        while data.len() < len
            invariant
                len == self.data@.len(),
                data@.len() <= len,
                U::obeys_from_spec() ==> forall|k: int|
                    0 <= k < data@.len() ==> #[trigger] data@[k] == U::from_spec(self.data@[k]),
            decreases len - data@.len(),
        {
            let k: usize = data.len();
            data.push(U::from(self.data[k]));
        }
        Matrix { rows: self.rows, cols: self.cols, data }
    }
}

} // verus!
