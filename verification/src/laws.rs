//! What holds of the operations for every matrix, stated over the values
//! that their contracts speak of.
//!
//! The laws of transposition and of writing a cell hold for every element
//! type, and so does the refusal of operands whose shapes do not fit. The
//! other laws of arithmetic are stated for matrices of `i32`, where the
//! sum, difference and product of two cells are those of the integers as
//! long as they fit the type; a law asks that an operation exists only where
//! it would not hold without.

use crate::matrix::{lemma_offset_in_bounds, lemma_offset_split, Matrix, MatrixView};
use std::ops::{Add, Mul, Sub};
use vstd::prelude::*;
use vstd::std_specs::ops::{AddSpec, MulSpec, SubSpec};

verus! {

/// Cell `(i, j)` of the transposed matrix is cell `(j, i)` of the matrix, and
/// the transposed matrix is as well formed as the matrix.
pub proof fn lemma_transposed_cell<T>(m: MatrixView<T>, i: int, j: int)
    requires
        m.wf(),
        0 <= i < m.cols,
        0 <= j < m.rows,
    ensures
        m.transposed().wf(),
        m.transposed().in_range(i, j),
        m.transposed().at(i, j) == m.at(j, i),
{
    lemma_offset_in_bounds(m.cols, m.rows, i, j);
    assert(m.cols * m.rows == m.rows * m.cols) by (nonlinear_arith);
}

/// Transposing twice gives the matrix back, whatever its shape.
pub proof fn lemma_transpose_involution<T>(m: MatrixView<T>)
    requires
        m.wf(),
    ensures
        m.transposed().wf(),
        m.transposed().transposed() == m,
{
    let t = m.transposed();
    assert(m.cols * m.rows == m.rows * m.cols) by (nonlinear_arith);
    assert forall|k: int| 0 <= k < m.cells.len() implies t.transposed().cells[k]
        == m.cells[k] by {
        lemma_offset_split(m.rows, m.cols, k);
        let r = k / (m.cols as int);
        let c = k % (m.cols as int);
        lemma_transposed_cell(m, c, r);
    }
    assert(t.transposed().cells =~= m.cells);
}

/// Writing a cell and reading it back gives the written value, and every
/// other cell reads as before.
pub proof fn lemma_set_then_get<T>(m: MatrixView<T>, row: int, col: int, value: T, r: int, c: int)
    requires
        m.wf(),
        m.in_range(row, col),
    ensures
        m.with_cell(row, col, value).wf(),
        m.with_cell(row, col, value).get(row, col) == Some(value),
        (r != row || c != col) ==> m.with_cell(row, col, value).get(r, c) == m.get(r, c),
{
    lemma_offset_in_bounds(m.rows, m.cols, row, col);
    if m.in_range(r, c) {
        lemma_offset_in_bounds(m.rows, m.cols, r, c);
    }
}

/// Matrices of different shapes cannot be added: `+` refuses them by value
/// and by reference, and so does `+=`, whichever operand is the smaller.
pub proof fn lemma_add_refuses_other_shape<T: Copy + Add<Output = T>>(a: Matrix<T>, b: Matrix<T>)
    requires
        a@.rows != b@.rows || a@.cols != b@.cols,
    ensures
        !a.add_req(b),
        !b.add_req(a),
        !(&a).add_req(&b),
        !(&b).add_req(&a),
        !a@.can_add(b@),
        !b@.can_add(a@),
{
}

/// Matrices of different shapes cannot be subtracted: `-` refuses them by
/// value and by reference, and so does `-=`, whichever operand is the
/// smaller.
pub proof fn lemma_sub_refuses_other_shape<T: Copy + Sub<Output = T>>(a: Matrix<T>, b: Matrix<T>)
    requires
        a@.rows != b@.rows || a@.cols != b@.cols,
    ensures
        !a.sub_req(b),
        !b.sub_req(a),
        !(&a).sub_req(&b),
        !(&b).sub_req(&a),
        !a@.can_sub(b@),
        !b@.can_sub(a@),
{
}

/// A matrix cannot be multiplied by one that is not as high as the matrix is
/// wide: `*` refuses the pair by value and by reference.
pub proof fn lemma_mul_refuses_other_height<T: Copy + Mul<Output = T> + Add<Output = T>>(
    a: Matrix<T>,
    b: Matrix<T>,
)
    requires
        a@.cols != b@.rows,
    ensures
        !a.mul_req(b),
        !(&a).mul_req(&b),
        !a@.can_mul(b@),
{
}

/// The matrix of the given shape whose cells are all zero.
pub open spec fn zero(rows: nat, cols: nat) -> MatrixView<i32> {
    MatrixView { rows, cols, cells: Seq::new(rows * cols, |k: int| 0i32) }
}

/// The square matrix of the given size with ones on the diagonal and zeros
/// elsewhere.
pub open spec fn identity(size: nat) -> MatrixView<i32> {
    MatrixView {
        rows: size,
        cols: size,
        cells: Seq::new(
            size * size,
            |k: int|
                if k / (size as int) == k % (size as int) {
                    1i32
                } else {
                    0i32
                },
        ),
    }
}

/// The negation of a matrix: the zero matrix of its shape minus the matrix.
pub open spec fn negated(m: MatrixView<i32>) -> MatrixView<i32> {
    zero(m.rows, m.cols).difference(m)
}

/// Addition is commutative.
pub proof fn lemma_add_commutative(a: MatrixView<i32>, b: MatrixView<i32>)
    requires
        a.wf(),
        b.wf(),
        a.same_shape(b),
    ensures
        a.sum(b) == b.sum(a),
        a.can_add(b) <==> b.can_add(a),
{
    assert(a.sum(b).cells =~= b.sum(a).cells);
    if a.can_add(b) {
        assert forall|k: int| 0 <= k < b.cells.len() implies (#[trigger] b.cells[k]).add_req(
            a.cells[k],
        ) by {
            assert(a.cells[k].add_req(b.cells[k]));
        }
    }
    if b.can_add(a) {
        assert forall|k: int| 0 <= k < a.cells.len() implies (#[trigger] a.cells[k]).add_req(
            b.cells[k],
        ) by {
            assert(b.cells[k].add_req(a.cells[k]));
        }
    }
}

/// Addition is associative wherever the two inner sums exist.
pub proof fn lemma_add_associative(a: MatrixView<i32>, b: MatrixView<i32>, c: MatrixView<i32>)
    requires
        a.wf(),
        b.wf(),
        c.wf(),
        a.can_add(b),
        b.can_add(c),
    ensures
        a.sum(b.sum(c)) == a.sum(b).sum(c),
        a.can_add(b.sum(c)) <==> a.sum(b).can_add(c),
{
    let left = a.sum(b.sum(c));
    let right = a.sum(b).sum(c);
    assert forall|k: int| 0 <= k < a.cells.len() implies left.cells[k] == right.cells[k] && (
    a.cells[k].add_req(b.sum(c).cells[k]) <==> a.sum(b).cells[k].add_req(c.cells[k])) by {
        assert(a.cells[k].add_req(b.cells[k]));
        assert(b.cells[k].add_req(c.cells[k]));
    }
    assert(left.cells =~= right.cells);
    if a.can_add(b.sum(c)) {
        assert forall|k: int| 0 <= k < a.sum(b).cells.len() implies (#[trigger] a.sum(
            b,
        ).cells[k]).add_req(c.cells[k]) by {
            assert(a.cells[k].add_req(b.sum(c).cells[k]));
        }
    }
    if a.sum(b).can_add(c) {
        assert forall|k: int| 0 <= k < a.cells.len() implies (#[trigger] a.cells[k]).add_req(
            b.sum(c).cells[k],
        ) by {
            assert(a.sum(b).cells[k].add_req(c.cells[k]));
        }
    }
}

/// The zero matrix is the identity of addition: it can be added to every
/// matrix of its shape and leaves it as it is.
pub proof fn lemma_add_zero(a: MatrixView<i32>)
    requires
        a.wf(),
    ensures
        a.can_add(zero(a.rows, a.cols)),
        a.sum(zero(a.rows, a.cols)) == a,
{
    assert(a.sum(zero(a.rows, a.cols)).cells =~= a.cells);
}

/// Swapping the operands of a subtraction negates the result, wherever the
/// swapped difference exists.
pub proof fn lemma_sub_antisymmetric(a: MatrixView<i32>, b: MatrixView<i32>)
    requires
        a.wf(),
        b.wf(),
        b.can_sub(a),
    ensures
        a.difference(b) == negated(b.difference(a)),
{
    assert forall|k: int| 0 <= k < a.cells.len() implies a.difference(b).cells[k] == negated(
        b.difference(a),
    ).cells[k] by {
        assert(b.cells[k].sub_req(a.cells[k]));
    }
    assert(a.difference(b).cells =~= negated(b.difference(a)).cells);
}

/// A matrix minus itself is the zero matrix of its shape.
pub proof fn lemma_sub_self(a: MatrixView<i32>)
    requires
        a.wf(),
    ensures
        a.can_sub(a),
        a.difference(a) == zero(a.rows, a.cols),
{
    assert(a.difference(a).cells =~= zero(a.rows, a.cols).cells);
}

/// Subtracting the zero matrix leaves a matrix as it is.
pub proof fn lemma_sub_zero(a: MatrixView<i32>)
    requires
        a.wf(),
    ensures
        a.can_sub(zero(a.rows, a.cols)),
        a.difference(zero(a.rows, a.cols)) == a,
{
    assert(a.difference(zero(a.rows, a.cols)).cells =~= a.cells);
}

/// Whether term `k` of a dot product exists and is `value` at `pick`, zero
/// elsewhere.
spec fn lone_term(
    lhs: MatrixView<i32>,
    rhs: MatrixView<i32>,
    i: int,
    j: int,
    k: int,
    pick: int,
    value: i32,
) -> bool {
    &&& lhs.at(i, k).mul_req(rhs.at(k, j))
    &&& lhs.term(rhs, i, j, k) == (if k == pick {
        value
    } else {
        0i32
    })
}

/// A dot product in which every term is zero, but for the term at `pick`
/// which is `value`, exists and is `value` once it reaches that term, and
/// zero before.
proof fn lemma_dot_of_one_term(
    lhs: MatrixView<i32>,
    rhs: MatrixView<i32>,
    i: int,
    j: int,
    n: nat,
    pick: int,
    value: i32,
)
    requires
        n >= 1,
        forall|k: int| 0 <= k < n ==> #[trigger] lone_term(lhs, rhs, i, j, k, pick, value),
    ensures
        lhs.dot_defined(rhs, i, j, n),
        lhs.dot(rhs, i, j, n) == (if 0 <= pick < n {
            value
        } else {
            0i32
        }),
    decreases n,
{
    if n == 1 {
        assert(lone_term(lhs, rhs, i, j, 0, pick, value));
    } else {
        lemma_dot_of_one_term(lhs, rhs, i, j, (n - 1) as nat, pick, value);
        assert(lone_term(lhs, rhs, i, j, n - 1, pick, value));
    }
}

/// Multiplying by the identity matrix on the right leaves a matrix as it is,
/// and the product exists whenever the matrix fits in memory.
pub proof fn lemma_mul_identity_right(a: MatrixView<i32>)
    requires
        a.wf(),
    ensures
        a.product(identity(a.cols)) == a,
        a.rows * a.cols <= usize::MAX ==> a.can_mul(identity(a.cols)),
{
    let unit = identity(a.cols);
    assert forall|i: int, j: int|
        0 <= i < a.rows && 0 <= j < a.cols implies #[trigger] a.dot_defined(unit, i, j, a.cols)
        && a.dot(unit, i, j, a.cols) == a.at(i, j) by {
        assert forall|k: int| 0 <= k < a.cols implies #[trigger] lone_term(
            a,
            unit,
            i,
            j,
            k,
            j,
            a.at(i, j),
        ) by {
            lemma_offset_in_bounds(a.cols, a.cols, k, j);
            let x = a.at(i, k) as int;
            assert(x * 1 == x && x * 0 == 0) by (nonlinear_arith);
        }
        lemma_dot_of_one_term(a, unit, i, j, a.cols, j, a.at(i, j));
    }
    assert forall|k: int| 0 <= k < a.cells.len() implies a.product(unit).cells[k]
        == a.cells[k] by {
        lemma_offset_split(a.rows, a.cols, k);
        let i = k / (a.cols as int);
        let j = k % (a.cols as int);
        assert(a.dot_defined(unit, i, j, a.cols));
    }
    assert(a.product(unit).cells =~= a.cells);
}

/// Multiplying by the identity matrix on the left leaves a matrix as it is,
/// and the product exists whenever the matrix fits in memory.
pub proof fn lemma_mul_identity_left(a: MatrixView<i32>)
    requires
        a.wf(),
    ensures
        identity(a.rows).product(a) == a,
        a.rows * a.cols <= usize::MAX ==> identity(a.rows).can_mul(a),
{
    let unit = identity(a.rows);
    assert forall|i: int, j: int|
        0 <= i < a.rows && 0 <= j < a.cols implies #[trigger] unit.dot_defined(a, i, j, a.rows)
        && unit.dot(a, i, j, a.rows) == a.at(i, j) by {
        assert forall|k: int| 0 <= k < a.rows implies #[trigger] lone_term(
            unit,
            a,
            i,
            j,
            k,
            i,
            a.at(i, j),
        ) by {
            lemma_offset_in_bounds(a.rows, a.rows, i, k);
            let x = a.at(k, j) as int;
            assert(1 * x == x && 0 * x == 0) by (nonlinear_arith);
        }
        lemma_dot_of_one_term(unit, a, i, j, a.rows, i, a.at(i, j));
    }
    assert forall|k: int| 0 <= k < a.cells.len() implies unit.product(a).cells[k]
        == a.cells[k] by {
        lemma_offset_split(a.rows, a.cols, k);
        let i = k / (a.cols as int);
        let j = k % (a.cols as int);
        assert(unit.dot_defined(a, i, j, a.rows));
    }
    assert(unit.product(a).cells =~= a.cells);
}

/// Multiplying a matrix that has at least one column by a zero matrix gives
/// the zero matrix of the product's shape, and the product exists whenever
/// it fits in memory.
pub proof fn lemma_mul_zero(a: MatrixView<i32>, cols: nat)
    requires
        a.wf(),
        a.cols > 0,
    ensures
        a.product(zero(a.cols, cols)) == zero(a.rows, cols),
        a.rows * cols <= usize::MAX ==> a.can_mul(zero(a.cols, cols)),
{
    let none = zero(a.cols, cols);
    assert forall|i: int, j: int|
        0 <= i < a.rows && 0 <= j < cols implies #[trigger] a.dot_defined(none, i, j, a.cols)
        && a.dot(none, i, j, a.cols) == 0i32 by {
        assert forall|k: int| 0 <= k < a.cols implies #[trigger] lone_term(
            a,
            none,
            i,
            j,
            k,
            -1,
            0i32,
        ) by {
            lemma_offset_in_bounds(a.cols, cols, k, j);
            let x = a.at(i, k) as int;
            assert(x * 0 == 0) by (nonlinear_arith);
        }
        lemma_dot_of_one_term(a, none, i, j, a.cols, -1, 0i32);
    }
    assert forall|k: int| 0 <= k < a.rows * cols implies a.product(none).cells[k] == 0i32 by {
        lemma_offset_split(a.rows, cols, k);
        let i = k / (cols as int);
        let j = k % (cols as int);
        assert(a.dot_defined(none, i, j, a.cols));
    }
    assert(a.product(none).cells =~= zero(a.rows, cols).cells);
}


} // verus!
