mod from;
mod index;
mod iter;
mod std_ops;

use vstd::pervasive::{runtime_assert, unreached};
use vstd::prelude::*;
use vstd::std_specs::iter::IteratorSpec;

verus! {

/// The mathematical value of a matrix: its shape and its cells, row by row.
pub struct MatrixView<T> {
    pub rows: nat,
    pub cols: nat,
    pub cells: Seq<T>,
}

impl<T> MatrixView<T> {
    /// The cell sequence holds exactly one element per coordinate pair.
    pub open spec fn wf(self) -> bool {
        self.cells.len() == self.rows * self.cols
    }

    /// Whether `(row, col)` names a cell of this matrix.
    pub open spec fn in_range(self, row: int, col: int) -> bool {
        0 <= row < self.rows && 0 <= col < self.cols
    }

    /// Whether `k` is the flat offset of a cell.
    pub open spec fn has_index(self, k: int) -> bool {
        0 <= k < self.cells.len()
    }

    /// The flat offset of cell `(row, col)`: rows are contiguous.
    pub open spec fn offset(self, row: int, col: int) -> int {
        col + row * self.cols
    }

    /// The element at `(row, col)`.
    pub open spec fn at(self, row: int, col: int) -> T
        recommends
            self.in_range(row, col),
    {
        self.cells[self.offset(row, col)]
    }

    /// The checked lookup: present exactly for coordinates in range.
    pub open spec fn get(self, row: int, col: int) -> Option<T> {
        if self.in_range(row, col) {
            Some(self.at(row, col))
        } else {
            None
        }
    }

    /// The transposed matrix: the shape is swapped and cell `(i, j)` holds
    /// what cell `(j, i)` holds here.
    pub open spec fn transposed(self) -> MatrixView<T> {
        MatrixView {
            rows: self.cols,
            cols: self.rows,
            cells: Seq::new(
                self.cells.len(),
                |k: int| self.at(k % (self.rows as int), k / (self.rows as int)),
            ),
        }
    }

    /// This matrix with cell `(row, col)` replaced by `value`.
    pub open spec fn with_cell(self, row: int, col: int, value: T) -> MatrixView<T> {
        MatrixView { cells: self.cells.update(self.offset(row, col), value), ..self }
    }
}

/// Every in-range coordinate pair has its own flat offset inside the cell
/// sequence.
pub proof fn lemma_offset_in_bounds(rows: nat, cols: nat, row: int, col: int)
    requires
        0 <= row < rows,
        0 <= col < cols,
    ensures
        0 <= row * cols,
        0 <= col + row * cols < rows * cols,
        (col + row * cols) / (cols as int) == row,
        (col + row * cols) % (cols as int) == col,
{
    assert(0 <= row * cols) by (nonlinear_arith)
        requires
            0 <= row,
            0 <= cols,
    ;
    assert(col + row * cols < rows * cols) by (nonlinear_arith)
        requires
            0 <= row < rows,
            0 <= col < cols,
    ;
    vstd::arithmetic::div_mod::lemma_fundamental_div_mod_converse(
        col + row * cols,
        cols as int,
        row,
        col,
    );
}

/// Every flat offset inside the cell sequence belongs to exactly one
/// in-range coordinate pair: its quotient and remainder by the width.
pub proof fn lemma_offset_split(rows: nat, cols: nat, k: int)
    requires
        0 <= k < rows * cols,
    ensures
        cols > 0,
        0 <= k / (cols as int) < rows,
        0 <= k % (cols as int) < cols,
        k == k % (cols as int) + (k / (cols as int)) * cols,
{
    assert(cols > 0) by (nonlinear_arith)
        requires
            0 <= k < rows * cols,
    ;
    let width = cols as int;
    vstd::arithmetic::div_mod::lemma_fundamental_div_mod(k, width);
    vstd::arithmetic::div_mod::lemma_mod_bound(k, width);
    assert(0 <= k / width < rows) by (nonlinear_arith)
        requires
            0 <= k < rows * width,
            width > 0,
            k == width * (k / width) + (k % width),
            0 <= k % width < width,
    ;
    assert(width * (k / width) == (k / width) * width) by (nonlinear_arith);
}

/// Whether `rows` can be laid out as a matrix: there is at least one row,
/// the first row holds at least one element, all rows have the length of the
/// first, and the cell count fits a `usize`.
pub open spec fn is_grid<T>(rows: Seq<Vec<T>>) -> bool {
    &&& rows.len() > 0
    &&& rows[0]@.len() > 0
    &&& forall|i: int| 0 <= i < rows.len() ==> (#[trigger] rows[i])@.len() == rows[0]@.len()
    &&& rows.len() * rows[0]@.len() <= usize::MAX
}

/// Calls `all_equal` of `itertools::Itertools` on an iterator over `lens`.
/// It compares every later element with the first, so it answers whether
/// the elements are equal to each other; an empty list counts as equal.
#[verifier::external_body]
fn all_equal(lens: &Vec<usize>) -> (same: bool)
    ensures
        same == (forall|i: int| 0 <= i < lens@.len() ==> #[trigger] lens@[i] == lens@[0]),
{
    itertools::Itertools::all_equal(&mut lens.iter())
}

/// A two-dimensional container whose shape is fixed at construction.
///
/// The cells live in one flat vector, row after row, so that cell
/// `(row, col)` sits at offset `col + row * cols`. A matrix may have no rows
/// or no columns; it then holds no cell at all.
#[derive(Debug, Hash, PartialOrd)]
pub struct Matrix<T> {
    rows: usize,
    cols: usize,
    data: Vec<T>,
}

impl<T> View for Matrix<T> {
    type V = MatrixView<T>;

    closed spec fn view(&self) -> MatrixView<T> {
        MatrixView { rows: self.rows as nat, cols: self.cols as nat, cells: self.data@ }
    }
}

impl<T: Clone> Clone for Matrix<T> {
    /// A matrix of the same shape whose cells are clones of the cells of
    /// this one.
    fn clone(&self) -> (copy: Matrix<T>)
        ensures
            copy@.wf(),
            copy@.rows == self@.rows,
            copy@.cols == self@.cols,
            copy@.cells.len() == self@.cells.len(),
            forall|k: int|
                0 <= k < self@.cells.len() ==> cloned(self@.cells[k], #[trigger] copy@.cells[k]),
    {
        proof {
            use_type_invariant(self);
        }
        Matrix { rows: self.rows, cols: self.cols, data: self.data.clone() }
    }
}

impl<T> Matrix<T> {
    #[verifier::type_invariant]
    spec fn inv(self) -> bool {
        self.data@.len() == self.rows * self.cols && self.data@.len() <= usize::MAX
    }

    /// A matrix of the given non-empty shape with every cell set to the
    /// element type's default value.
    pub fn new(rows: usize, cols: usize) -> (m: Matrix<T>) where T: Default
        requires
            rows > 0,
            cols > 0,
            rows * cols <= usize::MAX,
        ensures
            m@.wf(),
            m@.rows == rows,
            m@.cols == cols,
            forall|k: int|
                0 <= k < m@.cells.len() ==> call_ensures(T::default, (), #[trigger] m@.cells[k]),
    {
        runtime_assert(rows > 0 && cols > 0);
        let len: usize = rows * cols;
        let mut data: Vec<T> = Vec::with_capacity(len);
        while data.len() < len
            invariant
                data@.len() <= len,
                forall|k: int|
                    0 <= k < data@.len() ==> call_ensures(T::default, (), #[trigger] data@[k]),
            decreases len - data@.len(),
        {
            data.push(T::default());
        }
        Matrix { rows, cols, data }
    }

    /// A matrix of the given shape filled row by row with the first
    /// `rows * cols` values that `data` yields. No further value is taken
    /// from `data`. A shape with no rows or no columns gives an empty matrix.
    pub fn from_iter<I: Iterator<Item = T>>(rows: usize, cols: usize, data: I) -> (m: Matrix<T>)
        requires
            rows * cols <= usize::MAX,
            data.obeys_prophetic_iter_laws(),
            data.remaining().len() >= rows * cols,
        ensures
            m@.wf(),
            m@.rows == rows,
            m@.cols == cols,
            m@.cells == data.remaining().take(rows * cols),
    {
        let len: usize = rows * cols;
        let mut source = data;
        let mut cells: Vec<T> = Vec::with_capacity(len);
        while cells.len() < len
            invariant
                cells@.len() <= len,
                source.obeys_prophetic_iter_laws(),
                data.remaining().len() >= len,
                data.remaining() == cells@ + source.remaining(),
            decreases len - cells@.len(),
        {
            let value = match source.next() {
                Some(value) => value,
                None => unreached(),
            };
            cells.push(value);
        }
        proof {
            assert(cells@ == data.remaining().take(len as int));
        }
        Matrix { rows, cols, data: cells }
    }

    /// Whether `from_vecs` accepts `vecs`: at least one row, rows of one
    /// length that is not zero, and a cell count that fits a `usize`.
    pub fn accepts_vecs(vecs: &Vec<Vec<T>>) -> (ok: bool)
        ensures
            ok == is_grid(vecs@),
    {
        let rows: usize = vecs.len();
        if rows == 0 {
            return false;
        }
        let mut lens: Vec<usize> = Vec::with_capacity(rows);
        while lens.len() < rows
            invariant
                rows == vecs@.len(),
                lens@.len() <= rows,
                forall|i: int| 0 <= i < lens@.len() ==> #[trigger] lens@[i] == vecs@[i]@.len(),
            decreases rows - lens@.len(),
        {
            lens.push(vecs[lens.len()].len());
        }
        let same = all_equal(&lens);
        let cols: usize = vecs[0].len();
        proof {
            if same {
                assert forall|i: int| 0 <= i < vecs@.len() implies (#[trigger] vecs@[i])@.len()
                    == vecs@[0]@.len() by {
                    assert(lens@[i] == lens@[0]);
                }
            } else {
                let i = choose|i: int| 0 <= i < lens@.len() && #[trigger] lens@[i] != lens@[0];
                assert(vecs@[i]@.len() != vecs@[0]@.len());
            }
            if cols > 0 {
                let max = usize::MAX as int;
                let quot = max / (cols as int);
                assert(quot * cols <= max && max < (quot + 1) * cols) by (nonlinear_arith)
                    requires
                        cols > 0,
                        quot == max / (cols as int),
                        max >= 0,
                ;
                assert(rows <= quot <==> rows * cols <= max) by (nonlinear_arith)
                    requires
                        cols > 0,
                        quot * cols <= max,
                        max < (quot + 1) * cols,
                ;
            }
        }
        same && cols > 0 && rows <= usize::MAX / cols
    }

    /// A matrix built from a non-empty list of non-empty rows of one length:
    /// row `r` of the matrix holds the elements of `vecs[r]`, in order.
    pub fn from_vecs(vecs: Vec<Vec<T>>) -> (m: Matrix<T>)
        requires
            is_grid(vecs@),
        ensures
            m@.wf(),
            m@.rows == vecs@.len(),
            m@.cols == vecs@[0]@.len(),
            forall|r: int, c: int|
                0 <= r < m@.rows && 0 <= c < m@.cols ==> #[trigger] m@.at(r, c) == vecs@[r]@[c],
    {
        runtime_assert(Self::accepts_vecs(&vecs));
        let rows: usize = vecs.len();
        let cols: usize = vecs[0].len();
        let mut rest = vecs;
        let mut data: Vec<T> = Vec::with_capacity(rows * cols);
        let mut r: usize = 0;
        while r < rows
            invariant
                r <= rows,
                rows == vecs@.len(),
                cols == vecs@[0]@.len(),
                rows * cols <= usize::MAX,
                rest@.len() == rows,
                forall|i: int| r <= i < rows ==> #[trigger] rest@[i] == vecs@[i],
                forall|i: int| 0 <= i < rows ==> (#[trigger] vecs@[i])@.len() == cols,
                data@.len() == r * cols,
                forall|i: int, c: int|
                    0 <= i < r && 0 <= c < cols ==> #[trigger] data@[c + i * cols] == vecs@[i]@[c],
            decreases rows - r,
        {
            let ghost before = data@;
            proof {
                assert((r + 1) * cols == r * cols + cols) by (nonlinear_arith);
                assert((r + 1) * cols <= rows * cols) by (nonlinear_arith)
                    requires
                        r + 1 <= rows,
                ;
            }
            data.append(&mut rest[r]);
            proof {
                assert forall|i: int, c: int| 0 <= i < r + 1 && 0 <= c < cols implies #[trigger] data@[c
                    + i * cols] == vecs@[i]@[c] by {
                    lemma_offset_in_bounds((r + 1) as nat, cols as nat, i, c);
                    if i < r {
                        lemma_offset_in_bounds(r as nat, cols as nat, i, c);
                        assert(data@[c + i * cols] == before[c + i * cols]);
                    } else {
                        assert(data@[c + r * cols] == vecs@[r as int]@[c]);
                    }
                }
            }
            r += 1;
        }
        Matrix { rows, cols, data }
    }

    /// The shape of a stored matrix fits the machine's index type.
    pub proof fn lemma_shape_fits(self)
        ensures
            self@.rows <= usize::MAX,
            self@.cols <= usize::MAX,
    {
    }

    /// The number of rows.
    pub fn rows(&self) -> (n: usize)
        ensures
            n == self@.rows,
            self@.wf(),
    {
        proof {
            use_type_invariant(self);
        }
        self.rows
    }

    /// The number of columns.
    pub fn cols(&self) -> (n: usize)
        ensures
            n == self@.cols,
            self@.wf(),
    {
        proof {
            use_type_invariant(self);
        }
        self.cols
    }

    /// A reference to the element at `(row, col)`, or `None` when either
    /// coordinate lies outside the matrix.
    pub fn get(&self, row: usize, col: usize) -> (cell: Option<&T>)
        ensures
            self@.wf(),
            cell is Some <==> self@.in_range(row as int, col as int),
            cell is Some ==> *cell->0 == self@.at(row as int, col as int),
    {
        proof {
            use_type_invariant(self);
        }
        if row < self.rows && col < self.cols {
            proof {
                lemma_offset_in_bounds(self.rows as nat, self.cols as nat, row as int, col as int);
            }
            Some(&self.data[col + row * self.cols])
        } else {
            None
        }
    }

    /// Exclusive access to the element at `(row, col)`, or `None` when either
    /// coordinate lies outside the matrix. Whatever is written through the
    /// reference becomes the value of that one cell.
    pub fn get_mut(&mut self, row: usize, col: usize) -> (cell: Option<&mut T>)
        ensures
            cell is Some <==> old(self)@.in_range(row as int, col as int),
            cell is Some ==> *cell->0 == old(self)@.at(row as int, col as int),
            cell is Some ==> final(self)@ == old(self)@.with_cell(
                row as int,
                col as int,
                *final(cell->0),
            ),
            cell is None ==> final(self)@ == old(self)@,
    {
        proof {
            use_type_invariant(&*self);
        }
        if row < self.rows && col < self.cols {
            proof {
                lemma_offset_in_bounds(self.rows as nat, self.cols as nat, row as int, col as int);
            }
            Some(&mut self.data[col + row * self.cols])
        } else {
            None
        }
    }

    /// References to the cells of row `row`, left to right, or `None` when
    /// there is no such row.
    pub fn get_row(&self, row: usize) -> (cells: Option<Vec<&T>>)
        ensures
            self@.wf(),
            cells is Some <==> row < self@.rows,
            cells is Some ==> cells->0@.len() == self@.cols,
            cells is Some ==> forall|c: int|
                0 <= c < self@.cols ==> *(#[trigger] cells->0@[c]) == self@.at(row as int, c),
    {
        proof {
            use_type_invariant(self);
        }
        if row < self.rows {
            let mut cells: Vec<&T> = Vec::with_capacity(self.cols);
            let mut col: usize = 0;
            while col < self.cols
                invariant
                    row < self.rows,
                    col <= self.cols,
                    self.inv(),
                    cells@.len() == col,
                    forall|c: int|
                        0 <= c < col ==> *(#[trigger] cells@[c]) == self@.at(row as int, c),
                decreases self.cols - col,
            {
                proof {
                    lemma_offset_in_bounds(
                        self.rows as nat,
                        self.cols as nat,
                        row as int,
                        col as int,
                    );
                }
                cells.push(&self.data[col + row * self.cols]);
                col += 1;
            }
            Some(cells)
        } else {
            None
        }
    }

    /// References to the cells of column `col`, top to bottom, or `None` when
    /// there is no such column.
    pub fn get_col(&self, col: usize) -> (cells: Option<Vec<&T>>)
        ensures
            self@.wf(),
            cells is Some <==> col < self@.cols,
            cells is Some ==> cells->0@.len() == self@.rows,
            cells is Some ==> forall|r: int|
                0 <= r < self@.rows ==> *(#[trigger] cells->0@[r]) == self@.at(r, col as int),
    {
        proof {
            use_type_invariant(self);
        }
        if col < self.cols {
            let mut cells: Vec<&T> = Vec::with_capacity(self.rows);
            let mut row: usize = 0;
            while row < self.rows
                invariant
                    col < self.cols,
                    row <= self.rows,
                    self.inv(),
                    cells@.len() == row,
                    forall|r: int|
                        0 <= r < row ==> *(#[trigger] cells@[r]) == self@.at(r, col as int),
                decreases self.rows - row,
            {
                proof {
                    lemma_offset_in_bounds(
                        self.rows as nat,
                        self.cols as nat,
                        row as int,
                        col as int,
                    );
                }
                cells.push(&self.data[col + row * self.cols]);
                row += 1;
            }
            Some(cells)
        } else {
            None
        }
    }

    /// References to the cells of row `row`, left to right, or `None` when
    /// there is no such row.
    pub fn row(&self, row: usize) -> (cells: Option<Vec<&T>>)
        ensures
            self@.wf(),
            cells is Some <==> row < self@.rows,
            cells is Some ==> cells->0@.len() == self@.cols,
            cells is Some ==> forall|c: int|
                0 <= c < self@.cols ==> *(#[trigger] cells->0@[c]) == self@.at(row as int, c),
    {
        self.get_row(row)
    }

    /// References to the cells of column `col`, top to bottom, or `None` when
    /// there is no such column.
    pub fn col(&self, col: usize) -> (cells: Option<Vec<&T>>)
        ensures
            self@.wf(),
            cells is Some <==> col < self@.cols,
            cells is Some ==> cells->0@.len() == self@.rows,
            cells is Some ==> forall|r: int|
                0 <= r < self@.rows ==> *(#[trigger] cells->0@[r]) == self@.at(r, col as int),
    {
        self.get_col(col)
    }

    /// The transposed matrix, an `N` by `M` matrix for an `M` by `N` one:
    /// its cell `(i, j)` is a clone of cell `(j, i)` of this matrix.
    pub fn transpose(&self) -> (t: Matrix<T>) where T: Clone
        ensures
            self@.wf(),
            t@.wf(),
            t@.rows == self@.cols,
            t@.cols == self@.rows,
            forall|k: int|
                0 <= k < t@.cells.len() ==> cloned(
                    self@.transposed().cells[k],
                    #[trigger] t@.cells[k],
                ),
    {
        proof {
            use_type_invariant(self);
        }
        let mut data: Vec<T> = Vec::with_capacity(self.data.len());
        let mut i: usize = 0;
        while i < self.cols
            invariant
                i <= self.cols,
                self.inv(),
                data@.len() == i * self.rows,
                forall|k: int|
                    0 <= k < data@.len() ==> cloned(
                        self@.transposed().cells[k],
                        #[trigger] data@[k],
                    ),
            decreases self.cols - i,
        {
            let mut j: usize = 0;
            while j < self.rows
                invariant
                    i < self.cols,
                    j <= self.rows,
                    self.inv(),
                    data@.len() == i * self.rows + j,
                    forall|k: int|
                        0 <= k < data@.len() ==> cloned(
                            self@.transposed().cells[k],
                            #[trigger] data@[k],
                        ),
                decreases self.rows - j,
            {
                proof {
                    lemma_offset_in_bounds(self.rows as nat, self.cols as nat, j as int, i as int);
                    lemma_offset_in_bounds(self.cols as nat, self.rows as nat, i as int, j as int);
                    assert(self.cols * self.rows == self.rows * self.cols) by (nonlinear_arith);
                }
                data.push(self.data[i + j * self.cols].clone());
                j += 1;
            }
            proof {
                assert((i + 1) * self.rows == i * self.rows + self.rows) by (nonlinear_arith);
            }
            i += 1;
        }
        proof {
            assert(self.cols * self.rows == self.rows * self.cols) by (nonlinear_arith);
        }
        Matrix { rows: self.cols, cols: self.rows, data }
    }

    /// Calls `func` once on each cell, row by row. The matrix is only read;
    /// what `func` promises of a call then holds of every cell.
    pub fn apply<F: FnMut(&T)>(&self, mut func: F)
        requires
            forall|k: int| #[trigger]
                self@.has_index(k) ==> call_requires(func, (&self@.cells[k],)),
        ensures
            forall|k: int| #[trigger]
                self@.has_index(k) ==> call_ensures(func, (&self@.cells[k],), ()),
    {
        let ghost given = func;
        let mut k: usize = 0;
        while k < self.data.len()
            invariant
                k <= self.data@.len(),
                func == given,
                forall|i: int| #[trigger]
                    self@.has_index(i) ==> call_requires(func, (&self@.cells[i],)),
                forall|i: int| #[trigger]
                    self@.has_index(i) && i < k ==> call_ensures(func, (&self@.cells[i],), ()),
            decreases self.data@.len() - k,
        {
            proof {
                assert(self@.has_index(k as int));
                assert(self@.cells[k as int] == self.data@[k as int]);
            }
            func(&self.data[k]);
            k += 1;
        }
    }

    /// Calls `func` once on each cell, row by row, letting it change the cell.
    /// Each cell ends with a value that one call of `func` on its old value
    /// may leave behind; the shape stays as it was.
    pub fn apply_mut<F: FnMut(&mut T)>(&mut self, mut func: F)
        requires
            forall|x: &mut T, k: int| #[trigger]
                old(self)@.has_index(k) && *x == old(self)@.cells[k] ==> #[trigger] call_requires(
                    func,
                    (x,),
                ),
        ensures
            final(self)@.rows == old(self)@.rows,
            final(self)@.cols == old(self)@.cols,
            final(self)@.wf(),
            forall|k: int| #[trigger]
                old(self)@.has_index(k) ==> exists|x: &mut T|
                    *x == old(self)@.cells[k] && *final(x) == final(self)@.cells[k]
                        && #[trigger] call_ensures(func, (x,), ()),
    {
        proof {
            use_type_invariant(&*self);
        }
        let len: usize = self.data.len();
        let ghost given = func;
        let mut k: usize = 0;
        while k < len
            invariant
                k <= len,
                func == given,
                len == self.data@.len(),
                len == old(self).data@.len(),
                self.rows == old(self).rows,
                self.cols == old(self).cols,
                self.inv(),
                forall|x: &mut T, k: int| #[trigger]
                    old(self)@.has_index(k) && *x == old(self)@.cells[k]
                        ==> #[trigger] call_requires(func, (x,)),
                forall|i: int| #[trigger]
                    old(self)@.has_index(i) && i < k ==> exists|x: &mut T|
                        *x == old(self).data@[i] && *final(x) == self.data@[i]
                            && #[trigger] call_ensures(func, (x,), ()),
                forall|i: int| k <= i < len ==> old(self).data@[i] == #[trigger] self.data@[i],
            decreases len - k,
        {
            let ghost before = self.data@;
            proof {
                assert(old(self)@.has_index(k as int));
                assert(old(self)@.cells[k as int] == self.data@[k as int]);
            }
            func(&mut self.data[k]);
            proof {
                assert(exists|x: &mut T|
                    *x == before[k as int] && *final(x) == self.data@[k as int]
                        && #[trigger] call_ensures(func, (x,), ()));
                assert forall|i: int| 0 <= i < k implies self.data@[i] == before[i] by {}
            }
            k += 1;
        }
        proof {
            assert(self@.cells == self.data@);
            assert(old(self)@.cells == old(self).data@);
        }
    }

    /// Writes `value` to the cell at `(row, col)` and reports `true`; with a
    /// coordinate out of range the matrix is left as it was and the result is
    /// `false`.
    pub fn set(&mut self, row: usize, col: usize, value: T) -> (written: bool)
        ensures
            written == old(self)@.in_range(row as int, col as int),
            written ==> final(self)@ == old(self)@.with_cell(row as int, col as int, value),
            !written ==> final(self)@ == old(self)@,
    {
        proof {
            use_type_invariant(&*self);
        }
        if row < self.rows && col < self.cols {
            proof {
                lemma_offset_in_bounds(self.rows as nat, self.cols as nat, row as int, col as int);
            }
            self.data[col + row * self.cols] = value;
            true
        } else {
            false
        }
    }
}

} // verus!
