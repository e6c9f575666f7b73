use super::{Matrix, MatrixView};
use super::lemma_offset_in_bounds;
use std::ops::{Add, AddAssign, Mul, Sub, SubAssign};
use vstd::pervasive::{runtime_assert, unreached};
use vstd::prelude::*;
use vstd::std_specs::cmp::PartialEqSpec;
use vstd::std_specs::iter::IteratorSpec;
use vstd::std_specs::ops::{AddSpec, MulSpec, SubSpec};

verus! {

impl<T> MatrixView<T> {
    /// Whether `other` has the shape of this matrix.
    pub open spec fn same_shape(self, other: MatrixView<T>) -> bool {
        self.rows == other.rows && self.cols == other.cols
    }
}

impl<T: Add<Output = T>> MatrixView<T> {
    /// Whether every cell of this matrix can be added to the cell of `rhs`
    /// at the same place: the shapes agree and no cell sum is refused by the
    /// element type.
    pub open spec fn can_add(self, rhs: MatrixView<T>) -> bool {
        &&& self.same_shape(rhs)
        &&& forall|k: int|
            0 <= k < self.cells.len() ==> (#[trigger] self.cells[k]).add_req(rhs.cells[k])
    }

    /// The cell-by-cell sum of this matrix and `rhs`.
    pub open spec fn sum(self, rhs: MatrixView<T>) -> MatrixView<T> {
        MatrixView {
            rows: self.rows,
            cols: self.cols,
            cells: Seq::new(self.cells.len(), |k: int| self.cells[k].add_spec(rhs.cells[k])),
        }
    }
}

/// What `+` asks of two matrices. What it returns is stated over views, by
/// the contract of `add` itself: `add_spec` would have to name a stored
/// matrix, which a specification cannot build, so it is not relied on.
impl<T: Add<Output = T>> vstd::std_specs::ops::AddSpecImpl for Matrix<T> {
    open spec fn obeys_add_spec() -> bool {
        false
    }

    open spec fn add_req(self, rhs: Matrix<T>) -> bool {
        self@.can_add(rhs@)
    }

    open spec fn add_spec(self, rhs: Matrix<T>) -> Matrix<T> {
        self
    }
}

/// Adds the first `len` items of `left` to those of `right`, pair by pair.
fn sum_pairs<T: Add<Output = T>, L: Iterator<Item = T>, R: Iterator<Item = T>>(
    left: L,
    right: R,
    len: usize,
) -> (sums: Vec<T>)
    requires
        left.obeys_prophetic_iter_laws(),
        right.obeys_prophetic_iter_laws(),
        left.remaining().len() >= len,
        right.remaining().len() >= len,
        forall|k: int|
            0 <= k < len ==> (#[trigger] left.remaining()[k]).add_req(right.remaining()[k]),
    ensures
        sums@.len() == len,
        T::obeys_add_spec() ==> forall|k: int|
            0 <= k < len ==> #[trigger] sums@[k] == left.remaining()[k].add_spec(
                right.remaining()[k],
            ),
{
    let ghost xs = left.remaining();
    let ghost ys = right.remaining();
    let mut left = left;
    let mut right = right;
    let mut sums: Vec<T> = Vec::with_capacity(len);
    while sums.len() < len
        invariant
            sums@.len() <= len,
            len <= xs.len(),
            len <= ys.len(),
            left.obeys_prophetic_iter_laws(),
            right.obeys_prophetic_iter_laws(),
            left.remaining() == xs.skip(sums@.len() as int),
            right.remaining() == ys.skip(sums@.len() as int),
            forall|k: int| 0 <= k < len ==> (#[trigger] xs[k]).add_req(ys[k]),
            T::obeys_add_spec() ==> forall|k: int|
                0 <= k < sums@.len() ==> #[trigger] sums@[k] == xs[k].add_spec(ys[k]),
        decreases len - sums@.len(),
    {
        let ghost at = sums@.len() as int;
        let a = left.next();
        let b = right.next();
        proof {
            assert(xs.skip(at).drop_first() == xs.skip(at + 1));
            assert(ys.skip(at).drop_first() == ys.skip(at + 1));
            assert(xs[at].add_req(ys[at]));
        }
        let pair = match (a, b) {
            (Some(x), Some(y)) => (x, y),
            _ => unreached(),
        };
        sums.push(pair.0 + pair.1);
    }
    sums
}

impl<T: Add<Output = T>> Add for Matrix<T> {
    type Output = Matrix<T>;

    /// The cell-by-cell sum of two matrices of one shape.
    fn add(self, rhs: Matrix<T>) -> (total: Matrix<T>)
        ensures
            total@.wf(),
            total@.same_shape(self@),
            T::obeys_add_spec() ==> total@ == self@.sum(rhs@),
    {
        proof {
            use_type_invariant(&self);
            use_type_invariant(&rhs);
        }
        runtime_assert(self.rows == rhs.rows);
        runtime_assert(self.cols == rhs.cols);
        let rows: usize = self.rows;
        let cols: usize = self.cols;
        let len: usize = self.data.len();
        let ghost lhs = self@;
        let ghost other = rhs@;
        proof {
            assert forall|k: int| 0 <= k < len implies (#[trigger] self.data@[k]).add_req(
                rhs.data@[k],
            ) by {
                assert(lhs.cells[k].add_req(other.cells[k]));
            }
        }
        let data = sum_pairs(self.data.into_iter(), rhs.data.into_iter(), len);
        proof {
            if T::obeys_add_spec() {
                assert(data@ == lhs.sum(other).cells);
            }
        }
        Matrix { rows, cols, data }
    }
}

/// What `+` asks of two borrowed matrices; the result is stated by `add`.
impl<'a, 'b, T: Copy + Add<Output = T>> vstd::std_specs::ops::AddSpecImpl<&'b Matrix<T>> for &'a Matrix<T> {
    open spec fn obeys_add_spec() -> bool {
        false
    }

    open spec fn add_req(self, rhs: &'b Matrix<T>) -> bool {
        self@.can_add(rhs@)
    }

    open spec fn add_spec(self, rhs: &'b Matrix<T>) -> Matrix<T> {
        *self
    }
}

impl<'a, 'b, T: Copy + Add<Output = T>> Add<&'b Matrix<T>> for &'a Matrix<T> {
    type Output = Matrix<T>;

    /// The cell-by-cell sum of two matrices of one shape, both left in place.
    fn add(self, rhs: &'b Matrix<T>) -> (total: Matrix<T>)
        ensures
            total@.wf(),
            total@.same_shape(self@),
            T::obeys_add_spec() ==> total@ == self@.sum(rhs@),
    {
        proof {
            use_type_invariant(self);
            use_type_invariant(rhs);
        }
        runtime_assert(self.rows == rhs.rows);
        runtime_assert(self.cols == rhs.cols);
        let len: usize = self.data.len();
        let mut data: Vec<T> = Vec::with_capacity(len);
        while data.len() < len
            invariant
                self@.can_add(rhs@),
                self.inv(),
                rhs.inv(),
                len == self.data@.len(),
                data@.len() <= len,
                T::obeys_add_spec() ==> forall|k: int|
                    0 <= k < data@.len() ==> #[trigger] data@[k] == self.data@[k].add_spec(
                        rhs.data@[k],
                    ),
            decreases len - data@.len(),
        {
            let k: usize = data.len();
            proof {
                assert(self@.cells[k as int].add_req(rhs@.cells[k as int]));
            }
            data.push(self.data[k] + rhs.data[k]);
        }
        proof {
            if T::obeys_add_spec() {
                assert(data@ == self@.sum(rhs@).cells);
            }
        }
        Matrix { rows: self.rows, cols: self.cols, data }
    }
}

impl<T: Sub<Output = T>> MatrixView<T> {
    /// Whether the cell of `rhs` can be taken from the cell of this matrix
    /// at every place: the shapes agree and no cell difference is refused by
    /// the element type.
    pub open spec fn can_sub(self, rhs: MatrixView<T>) -> bool {
        &&& self.same_shape(rhs)
        &&& forall|k: int|
            0 <= k < self.cells.len() ==> (#[trigger] self.cells[k]).sub_req(rhs.cells[k])
    }

    /// The cell-by-cell difference of this matrix and `rhs`.
    pub open spec fn difference(self, rhs: MatrixView<T>) -> MatrixView<T> {
        MatrixView {
            rows: self.rows,
            cols: self.cols,
            cells: Seq::new(self.cells.len(), |k: int| self.cells[k].sub_spec(rhs.cells[k])),
        }
    }
}

/// What `-` asks of two matrices; the result is stated by `sub`.
impl<T: Sub<Output = T>> vstd::std_specs::ops::SubSpecImpl for Matrix<T> {
    open spec fn obeys_sub_spec() -> bool {
        false
    }

    open spec fn sub_req(self, rhs: Matrix<T>) -> bool {
        self@.can_sub(rhs@)
    }

    open spec fn sub_spec(self, rhs: Matrix<T>) -> Matrix<T> {
        self
    }
}

/// Takes the first `len` items of `right` from those of `left`, pair by pair.
fn difference_pairs<T: Sub<Output = T>, L: Iterator<Item = T>, R: Iterator<Item = T>>(
    left: L,
    right: R,
    len: usize,
) -> (diffs: Vec<T>)
    requires
        left.obeys_prophetic_iter_laws(),
        right.obeys_prophetic_iter_laws(),
        left.remaining().len() >= len,
        right.remaining().len() >= len,
        forall|k: int|
            0 <= k < len ==> (#[trigger] left.remaining()[k]).sub_req(right.remaining()[k]),
    ensures
        diffs@.len() == len,
        T::obeys_sub_spec() ==> forall|k: int|
            0 <= k < len ==> #[trigger] diffs@[k] == left.remaining()[k].sub_spec(
                right.remaining()[k],
            ),
{
    let ghost xs = left.remaining();
    let ghost ys = right.remaining();
    let mut left = left;
    let mut right = right;
    let mut diffs: Vec<T> = Vec::with_capacity(len);
    while diffs.len() < len
        invariant
            diffs@.len() <= len,
            len <= xs.len(),
            len <= ys.len(),
            left.obeys_prophetic_iter_laws(),
            right.obeys_prophetic_iter_laws(),
            left.remaining() == xs.skip(diffs@.len() as int),
            right.remaining() == ys.skip(diffs@.len() as int),
            forall|k: int| 0 <= k < len ==> (#[trigger] xs[k]).sub_req(ys[k]),
            T::obeys_sub_spec() ==> forall|k: int|
                0 <= k < diffs@.len() ==> #[trigger] diffs@[k] == xs[k].sub_spec(ys[k]),
        decreases len - diffs@.len(),
    {
        let ghost at = diffs@.len() as int;
        let a = left.next();
        let b = right.next();
        proof {
            assert(xs.skip(at).drop_first() == xs.skip(at + 1));
            assert(ys.skip(at).drop_first() == ys.skip(at + 1));
            assert(xs[at].sub_req(ys[at]));
        }
        let pair = match (a, b) {
            (Some(x), Some(y)) => (x, y),
            _ => unreached(),
        };
        diffs.push(pair.0 - pair.1);
    }
    diffs
}

impl<T: Sub<Output = T>> Sub for Matrix<T> {
    type Output = Matrix<T>;

    /// The cell-by-cell difference of two matrices of one shape.
    fn sub(self, rhs: Matrix<T>) -> (rest: Matrix<T>)
        ensures
            rest@.wf(),
            rest@.same_shape(self@),
            T::obeys_sub_spec() ==> rest@ == self@.difference(rhs@),
    {
        proof {
            use_type_invariant(&self);
            use_type_invariant(&rhs);
        }
        runtime_assert(self.rows == rhs.rows);
        runtime_assert(self.cols == rhs.cols);
        let rows: usize = self.rows;
        let cols: usize = self.cols;
        let len: usize = self.data.len();
        let ghost lhs = self@;
        let ghost other = rhs@;
        proof {
            assert forall|k: int| 0 <= k < len implies (#[trigger] self.data@[k]).sub_req(
                rhs.data@[k],
            ) by {
                assert(lhs.cells[k].sub_req(other.cells[k]));
            }
        }
        let data = difference_pairs(self.data.into_iter(), rhs.data.into_iter(), len);
        proof {
            if T::obeys_sub_spec() {
                assert(data@ == lhs.difference(other).cells);
            }
        }
        Matrix { rows, cols, data }
    }
}

/// What `-` asks of two borrowed matrices; the result is stated by `sub`.
impl<'a, 'b, T: Copy + Sub<Output = T>> vstd::std_specs::ops::SubSpecImpl<&'b Matrix<T>> for &'a Matrix<T> {
    open spec fn obeys_sub_spec() -> bool {
        false
    }

    open spec fn sub_req(self, rhs: &'b Matrix<T>) -> bool {
        self@.can_sub(rhs@)
    }

    open spec fn sub_spec(self, rhs: &'b Matrix<T>) -> Matrix<T> {
        *self
    }
}

impl<'a, 'b, T: Copy + Sub<Output = T>> Sub<&'b Matrix<T>> for &'a Matrix<T> {
    type Output = Matrix<T>;

    /// The cell-by-cell difference of two matrices of one shape, both left in
    /// place.
    fn sub(self, rhs: &'b Matrix<T>) -> (rest: Matrix<T>)
        ensures
            rest@.wf(),
            rest@.same_shape(self@),
            T::obeys_sub_spec() ==> rest@ == self@.difference(rhs@),
    {
        proof {
            use_type_invariant(self);
            use_type_invariant(rhs);
        }
        runtime_assert(self.rows == rhs.rows);
        runtime_assert(self.cols == rhs.cols);
        let len: usize = self.data.len();
        let mut data: Vec<T> = Vec::with_capacity(len);
        while data.len() < len
            invariant
                self@.can_sub(rhs@),
                self.inv(),
                rhs.inv(),
                len == self.data@.len(),
                data@.len() <= len,
                T::obeys_sub_spec() ==> forall|k: int|
                    0 <= k < data@.len() ==> #[trigger] data@[k] == self.data@[k].sub_spec(
                        rhs.data@[k],
                    ),
            decreases len - data@.len(),
        {
            let k: usize = data.len();
            proof {
                assert(self@.cells[k as int].sub_req(rhs@.cells[k as int]));
            }
            data.push(self.data[k] - rhs.data[k]);
        }
        proof {
            if T::obeys_sub_spec() {
                assert(data@ == self@.difference(rhs@).cells);
            }
        }
        Matrix { rows: self.rows, cols: self.cols, data }
    }
}


impl<T: PartialEq> MatrixView<T> {
    /// Whether the two matrices have one shape and equal cells, place by
    /// place, as the element type compares them.
    pub open spec fn equals(self, rhs: MatrixView<T>) -> bool {
        &&& self.rows == rhs.rows
        &&& self.cols == rhs.cols
        &&& self.cells.len() == rhs.cells.len()
        &&& forall|k: int|
            0 <= k < self.cells.len() ==> (#[trigger] self.cells[k]).eq_spec(&rhs.cells[k])
    }
}

impl<T: PartialEq> vstd::std_specs::cmp::PartialEqSpecImpl for Matrix<T> {
    open spec fn obeys_eq_spec() -> bool {
        T::obeys_eq_spec()
    }

    open spec fn eq_spec(&self, rhs: &Matrix<T>) -> bool {
        self@.equals(rhs@)
    }
}

impl<T: PartialEq> PartialEq for Matrix<T> {
    /// Two matrices are equal when their shapes are and every cell equals
    /// the cell at the same place.
    fn eq(&self, rhs: &Matrix<T>) -> (same: bool) {
        proof {
            use_type_invariant(self);
            use_type_invariant(rhs);
        }
        if self.rows != rhs.rows || self.cols != rhs.cols {
            return false;
        }
        let len: usize = self.data.len();
        let mut k: usize = 0;
        while k < len
            invariant
                k <= len,
                len == self.data@.len(),
                len == rhs.data@.len(),
                T::obeys_eq_spec() ==> forall|i: int|
                    0 <= i < k ==> (#[trigger] self.data@[i]).eq_spec(&rhs.data@[i]),
            decreases len - k,
        {
            if self.data[k] != rhs.data[k] {
                proof {
                    if T::obeys_eq_spec() {
                        assert(!self@.cells[k as int].eq_spec(&rhs@.cells[k as int]));
                    }
                }
                return false;
            }
            k += 1;
        }
        true
    }
}

impl<T: Eq> Eq for Matrix<T> {

}


impl<T: Mul<Output = T> + Add<Output = T>> MatrixView<T> {
    /// The product of cell `(i, k)` of this matrix and cell `(k, j)` of `rhs`.
    pub open spec fn term(self, rhs: MatrixView<T>, i: int, j: int, k: int) -> T {
        self.at(i, k).mul_spec(rhs.at(k, j))
    }

    /// The sum of the first `n` terms of row `i` of this matrix times column
    /// `j` of `rhs`, added up from the left, the first term first.
    pub open spec fn dot(self, rhs: MatrixView<T>, i: int, j: int, n: nat) -> T
        decreases n,
    {
        if n <= 1 {
            self.term(rhs, i, j, 0)
        } else {
            self.dot(rhs, i, j, (n - 1) as nat).add_spec(self.term(rhs, i, j, n - 1))
        }
    }

    /// Whether the element type accepts every product and every sum that
    /// `dot` is made of. There must be a first term.
    pub open spec fn dot_defined(self, rhs: MatrixView<T>, i: int, j: int, n: nat) -> bool
        decreases n,
    {
        if n == 0 {
            false
        } else if n == 1 {
            self.at(i, 0).mul_req(rhs.at(0, j))
        } else {
            &&& self.dot_defined(rhs, i, j, (n - 1) as nat)
            &&& self.at(i, n - 1).mul_req(rhs.at(n - 1, j))
            &&& self.dot(rhs, i, j, (n - 1) as nat).add_req(self.term(rhs, i, j, n - 1))
        }
    }

    /// Whether this matrix can be multiplied by `rhs`: it is as wide as `rhs`
    /// is high, the result fits in memory, the element type's `*` and `+`
    /// return what their specifications say, and every cell of the result is
    /// a dot product that the element type accepts.
    pub open spec fn can_mul(self, rhs: MatrixView<T>) -> bool {
        &&& self.cols == rhs.rows
        &&& self.rows * rhs.cols <= usize::MAX
        &&& T::obeys_mul_spec()
        &&& T::obeys_add_spec()
        &&& forall|i: int, j: int|
            0 <= i < self.rows && 0 <= j < rhs.cols ==> #[trigger] self.dot_defined(
                rhs,
                i,
                j,
                self.cols,
            )
    }

    /// The matrix product: cell `(i, j)` is row `i` of this matrix times
    /// column `j` of `rhs`.
    pub open spec fn product(self, rhs: MatrixView<T>) -> MatrixView<T> {
        MatrixView {
            rows: self.rows,
            cols: rhs.cols,
            cells: Seq::new(
                self.rows * rhs.cols,
                |k: int| self.dot(rhs, k / (rhs.cols as int), k % (rhs.cols as int), self.cols),
            ),
        }
    }
}

/// The matrix product of `lhs` and `rhs`, computed cell by cell; each cell is
/// added up from the left, starting with its first term.
fn multiply<T: Copy + Mul<Output = T> + Add<Output = T>>(lhs: &Matrix<T>, rhs: &Matrix<T>) -> (out:
    Matrix<T>)
    requires
        lhs@.can_mul(rhs@),
    ensures
        out@.wf(),
        out@ == lhs@.product(rhs@),
{
    proof {
        use_type_invariant(lhs);
        use_type_invariant(rhs);
    }
    runtime_assert(lhs.cols == rhs.rows);
    let rows: usize = lhs.rows;
    let cols: usize = rhs.cols;
    let inner: usize = lhs.cols;
    let mut data: Vec<T> = Vec::with_capacity(rows * cols);
    let mut i: usize = 0;
    while i < rows
        invariant
            i <= rows,
            rows == lhs.rows,
            cols == rhs.cols,
            inner == lhs.cols,
            lhs.inv(),
            rhs.inv(),
            lhs@.can_mul(rhs@),
            data@.len() == i * cols,
            forall|k: int|
                0 <= k < data@.len() ==> #[trigger] data@[k] == lhs@.dot(
                    rhs@,
                    k / (cols as int),
                    k % (cols as int),
                    inner as nat,
                ),
        decreases rows - i,
    {
        let mut j: usize = 0;
        while j < cols
            invariant
                i < rows,
                j <= cols,
                rows == lhs.rows,
                cols == rhs.cols,
                inner == lhs.cols,
                lhs.inv(),
                rhs.inv(),
                lhs@.can_mul(rhs@),
                data@.len() == i * cols + j,
                forall|k: int|
                    0 <= k < data@.len() ==> #[trigger] data@[k] == lhs@.dot(
                        rhs@,
                        k / (cols as int),
                        k % (cols as int),
                        inner as nat,
                    ),
            decreases cols - j,
        {
            proof {
                assert(lhs@.dot_defined(rhs@, i as int, j as int, inner as nat));
                assert(inner >= 1);
                lemma_dot_defined_prefix(lhs@, rhs@, i as int, j as int, inner as nat, 1);
                lemma_offset_in_bounds(rows as nat, inner as nat, i as int, 0);
                lemma_offset_in_bounds(inner as nat, cols as nat, 0, j as int);
            }
            let mut acc: T = lhs.data[i * inner] * rhs.data[j];
            let mut k: usize = 1;
            while k < inner
                invariant
                    i < rows,
                    j < cols,
                    1 <= k <= inner,
                    rows == lhs.rows,
                    cols == rhs.cols,
                    inner == lhs.cols,
                    lhs.inv(),
                    rhs.inv(),
                    lhs@.can_mul(rhs@),
                    lhs@.dot_defined(rhs@, i as int, j as int, inner as nat),
                    acc == lhs@.dot(rhs@, i as int, j as int, k as nat),
                decreases inner - k,
            {
                proof {
                    lemma_dot_defined_prefix(
                        lhs@,
                        rhs@,
                        i as int,
                        j as int,
                        inner as nat,
                        (k + 1) as nat,
                    );
                    lemma_offset_in_bounds(rows as nat, inner as nat, i as int, k as int);
                    lemma_offset_in_bounds(inner as nat, cols as nat, k as int, j as int);
                }
                acc = acc + lhs.data[k + i * inner] * rhs.data[j + k * cols];
                k += 1;
            }
            proof {
                lemma_offset_in_bounds(rows as nat, cols as nat, i as int, j as int);
            }
            data.push(acc);
            j += 1;
        }
        proof {
            assert((i + 1) * cols == i * cols + cols) by (nonlinear_arith);
        }
        i += 1;
    }
    proof {
        assert(data@ == lhs@.product(rhs@).cells);
    }
    Matrix { rows, cols, data }
}

/// Where a dot product of `n` terms is defined, so is that of its first `m`
/// terms.
pub proof fn lemma_dot_defined_prefix<T: Mul<Output = T> + Add<Output = T>>(
    lhs: MatrixView<T>,
    rhs: MatrixView<T>,
    i: int,
    j: int,
    n: nat,
    m: nat,
)
    requires
        lhs.dot_defined(rhs, i, j, n),
        1 <= m <= n,
    ensures
        lhs.dot_defined(rhs, i, j, m),
    decreases n,
{
    if m < n {
        lemma_dot_defined_prefix(lhs, rhs, i, j, (n - 1) as nat, m);
    }
}

/// What `*` asks of two matrices; the result is stated by `mul`.
impl<T: Copy + Mul<Output = T> + Add<Output = T>> vstd::std_specs::ops::MulSpecImpl for Matrix<T> {
    open spec fn obeys_mul_spec() -> bool {
        false
    }

    open spec fn mul_req(self, rhs: Matrix<T>) -> bool {
        self@.can_mul(rhs@)
    }

    open spec fn mul_spec(self, rhs: Matrix<T>) -> Matrix<T> {
        self
    }
}

impl<T: Copy + Mul<Output = T> + Add<Output = T>> Mul for Matrix<T> {
    type Output = Matrix<T>;

    /// The matrix product of an `M` by `K` and a `K` by `N` matrix.
    fn mul(self, rhs: Matrix<T>) -> (out: Matrix<T>)
        ensures
            out@.wf(),
            out@ == self@.product(rhs@),
    {
        multiply(&self, &rhs)
    }
}

/// What `*` asks of two borrowed matrices; the result is stated by `mul`.
impl<'a, 'b, T: Copy + Mul<Output = T> + Add<Output = T>> vstd::std_specs::ops::MulSpecImpl<&'b Matrix<T>> for &'a Matrix<T> {
    open spec fn obeys_mul_spec() -> bool {
        false
    }

    open spec fn mul_req(self, rhs: &'b Matrix<T>) -> bool {
        self@.can_mul(rhs@)
    }

    open spec fn mul_spec(self, rhs: &'b Matrix<T>) -> Matrix<T> {
        *self
    }
}

impl<'a, 'b, T: Copy + Mul<Output = T> + Add<Output = T>> Mul<&'b Matrix<T>> for &'a Matrix<T> {
    type Output = Matrix<T>;

    /// The matrix product of an `M` by `K` and a `K` by `N` matrix, both
    /// left in place.
    fn mul(self, rhs: &'b Matrix<T>) -> (out: Matrix<T>)
        ensures
            out@.wf(),
            out@ == self@.product(rhs@),
    {
        multiply(self, rhs)
    }
}


/// Adds `rhs` to `lhs` cell by cell, in place.
fn add_in_place<T: Copy + Add<Output = T>>(lhs: &mut Matrix<T>, rhs: &Matrix<T>)
    requires
        old(lhs)@.can_add(rhs@),
    ensures
        final(lhs)@.wf(),
        final(lhs)@.same_shape(old(lhs)@),
        T::obeys_add_spec() ==> final(lhs)@ == old(lhs)@.sum(rhs@),
{
    proof {
        use_type_invariant(&*lhs);
        use_type_invariant(rhs);
    }
    runtime_assert(lhs.rows == rhs.rows);
    runtime_assert(lhs.cols == rhs.cols);
    let len: usize = lhs.data.len();
    let mut k: usize = 0;
    while k < len
        invariant
            k <= len,
            len == lhs.data@.len(),
            len == old(lhs).data@.len(),
            lhs.rows == old(lhs).rows,
            lhs.cols == old(lhs).cols,
            lhs.inv(),
            rhs.inv(),
            old(lhs)@.can_add(rhs@),
            forall|i: int| k <= i < len ==> #[trigger] lhs.data@[i] == old(lhs).data@[i],
            T::obeys_add_spec() ==> forall|i: int|
                0 <= i < k ==> #[trigger] lhs.data@[i] == old(lhs).data@[i].add_spec(rhs.data@[i]),
        decreases len - k,
    {
        proof {
            assert(old(lhs)@.cells[k as int].add_req(rhs@.cells[k as int]));
        }
        let total = lhs.data[k] + rhs.data[k];
        lhs.data[k] = total;
        k += 1;
    }
    proof {
        if T::obeys_add_spec() {
            assert(lhs@.cells =~= old(lhs)@.sum(rhs@).cells);
        }
    }
}

impl<T: Copy + Add<Output = T>> AddAssign<Matrix<T>> for Matrix<T> {
    /// Adds `rhs` to this matrix cell by cell, in place.
    fn add_assign(&mut self, rhs: Matrix<T>)
        requires
            old(self)@.can_add(rhs@),
        ensures
            final(self)@.wf(),
            final(self)@.same_shape(old(self)@),
            T::obeys_add_spec() ==> final(self)@ == old(self)@.sum(rhs@),
    {
        add_in_place(self, &rhs);
    }
}

impl<'a, T: Copy + Add<Output = T>> AddAssign<&'a Matrix<T>> for Matrix<T> {
    /// Adds `rhs` to this matrix cell by cell, in place.
    fn add_assign(&mut self, rhs: &'a Matrix<T>)
        requires
            old(self)@.can_add(rhs@),
        ensures
            final(self)@.wf(),
            final(self)@.same_shape(old(self)@),
            T::obeys_add_spec() ==> final(self)@ == old(self)@.sum(rhs@),
    {
        add_in_place(self, rhs);
    }
}

/// Takes `rhs` from `lhs` cell by cell, in place.
fn sub_in_place<T: Copy + Sub<Output = T>>(lhs: &mut Matrix<T>, rhs: &Matrix<T>)
    requires
        old(lhs)@.can_sub(rhs@),
    ensures
        final(lhs)@.wf(),
        final(lhs)@.same_shape(old(lhs)@),
        T::obeys_sub_spec() ==> final(lhs)@ == old(lhs)@.difference(rhs@),
{
    proof {
        use_type_invariant(&*lhs);
        use_type_invariant(rhs);
    }
    runtime_assert(lhs.rows == rhs.rows);
    runtime_assert(lhs.cols == rhs.cols);
    let len: usize = lhs.data.len();
    let mut k: usize = 0;
    while k < len
        invariant
            k <= len,
            len == lhs.data@.len(),
            len == old(lhs).data@.len(),
            lhs.rows == old(lhs).rows,
            lhs.cols == old(lhs).cols,
            lhs.inv(),
            rhs.inv(),
            old(lhs)@.can_sub(rhs@),
            forall|i: int| k <= i < len ==> #[trigger] lhs.data@[i] == old(lhs).data@[i],
            T::obeys_sub_spec() ==> forall|i: int|
                0 <= i < k ==> #[trigger] lhs.data@[i] == old(lhs).data@[i].sub_spec(rhs.data@[i]),
        decreases len - k,
    {
        proof {
            assert(old(lhs)@.cells[k as int].sub_req(rhs@.cells[k as int]));
        }
        let rest = lhs.data[k] - rhs.data[k];
        lhs.data[k] = rest;
        k += 1;
    }
    proof {
        if T::obeys_sub_spec() {
            assert(lhs@.cells =~= old(lhs)@.difference(rhs@).cells);
        }
    }
}

impl<T: Copy + Sub<Output = T>> SubAssign<Matrix<T>> for Matrix<T> {
    /// Takes `rhs` from this matrix cell by cell, in place.
    fn sub_assign(&mut self, rhs: Matrix<T>)
        requires
            old(self)@.can_sub(rhs@),
        ensures
            final(self)@.wf(),
            final(self)@.same_shape(old(self)@),
            T::obeys_sub_spec() ==> final(self)@ == old(self)@.difference(rhs@),
    {
        sub_in_place(self, &rhs);
    }
}

impl<'a, T: Copy + Sub<Output = T>> SubAssign<&'a Matrix<T>> for Matrix<T> {
    /// Takes `rhs` from this matrix cell by cell, in place.
    fn sub_assign(&mut self, rhs: &'a Matrix<T>)
        requires
            old(self)@.can_sub(rhs@),
        ensures
            final(self)@.wf(),
            final(self)@.same_shape(old(self)@),
            T::obeys_sub_spec() ==> final(self)@ == old(self)@.difference(rhs@),
    {
        sub_in_place(self, rhs);
    }
}

impl<T: Mul<Output = T>> MatrixView<T> {
    /// Whether every cell of this matrix can be multiplied by `factor`.
    pub open spec fn can_scale(self, factor: T) -> bool {
        forall|k: int| 0 <= k < self.cells.len() ==> (#[trigger] self.cells[k]).mul_req(factor)
    }

    /// This matrix with every cell multiplied by `factor`.
    pub open spec fn scaled(self, factor: T) -> MatrixView<T> {
        MatrixView {
            rows: self.rows,
            cols: self.cols,
            cells: Seq::new(self.cells.len(), |k: int| self.cells[k].mul_spec(factor)),
        }
    }
}

/// What `*` asks of a matrix and a factor; the result is stated by `mul`.
impl<T: Copy + Mul<Output = T>> vstd::std_specs::ops::MulSpecImpl<T> for Matrix<T> {
    open spec fn obeys_mul_spec() -> bool {
        false
    }

    open spec fn mul_req(self, factor: T) -> bool {
        self@.can_scale(factor)
    }

    open spec fn mul_spec(self, factor: T) -> Matrix<T> {
        self
    }
}

impl<T: Copy + Mul<Output = T>> Mul<T> for Matrix<T> {
    type Output = Matrix<T>;

    /// This matrix with every cell multiplied by `factor`; the shape stays.
    fn mul(self, factor: T) -> (out: Matrix<T>)
        ensures
            out@.wf(),
            out@.same_shape(self@),
            T::obeys_mul_spec() ==> out@ == self@.scaled(factor),
    {
        proof {
            use_type_invariant(&self);
        }
        let len: usize = self.data.len();
        let mut data: Vec<T> = Vec::with_capacity(len);
        while data.len() < len
            invariant
                self@.can_scale(factor),
                len == self.data@.len(),
                data@.len() <= len,
                T::obeys_mul_spec() ==> forall|k: int|
                    0 <= k < data@.len() ==> #[trigger] data@[k] == self.data@[k].mul_spec(factor),
            decreases len - data@.len(),
        {
            let k: usize = data.len();
            proof {
                assert(self@.cells[k as int].mul_req(factor));
            }
            data.push(self.data[k] * factor);
        }
        proof {
            if T::obeys_mul_spec() {
                assert(data@ == self@.scaled(factor).cells);
            }
        }
        Matrix { rows: self.rows, cols: self.cols, data }
    }
}


} // verus!
