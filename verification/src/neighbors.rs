use crate::matrix::{Matrix, MatrixView};
use vstd::prelude::*;

verus! {

/// A cell next to a given location: where it lies and what it holds.
#[derive(Debug, Hash, PartialEq, Eq)]
pub struct Neighbor<'a, T> {
    /// The `(row, col)` location of this neighbor in the matrix.
    pub loc: (usize, usize),
    /// The value of the neighbor.
    pub value: &'a T,
}

impl<'a, T> Clone for Neighbor<'a, T> {
    fn clone(&self) -> (copy: Self)
        ensures
            copy == *self,
    {
        Neighbor { loc: (self.loc.0, self.loc.1), value: self.value }
    }
}

impl<'a, T> Neighbor<'a, T> {
    /// Whether this neighbor is the cell of `m` at `loc`.
    pub open spec fn is_cell(self, m: MatrixView<T>, loc: (int, int)) -> bool {
        &&& self.loc.0 == loc.0
        &&& self.loc.1 == loc.1
        &&& m.in_range(loc.0, loc.1)
        &&& *self.value == m.at(loc.0, loc.1)
    }
}

/// The four steps to the cells that share an edge: up, down, left, right.
pub open spec fn straight_steps() -> Seq<(int, int)> {
    seq![(-1, 0), (1, 0), (0, -1), (0, 1)]
}

/// The four steps to the cells that share only a corner.
pub open spec fn diagonal_steps() -> Seq<(int, int)> {
    seq![(-1, -1), (1, 1), (-1, 1), (1, -1)]
}

impl<T> MatrixView<T> {
    /// The locations `(row, col) + step`, for the steps in their order, that
    /// lie inside the matrix. A step that leaves the matrix contributes
    /// nothing.
    pub open spec fn reachable(self, row: int, col: int, steps: Seq<(int, int)>) -> Seq<(int, int)>
        decreases steps.len(),
    {
        if steps.len() == 0 {
            Seq::empty()
        } else {
            let before = self.reachable(row, col, steps.drop_last());
            let target = (row + steps.last().0, col + steps.last().1);
            if self.in_range(target.0, target.1) {
                before.push(target)
            } else {
                before
            }
        }
    }
}

/// Whether `found` lists exactly the cells of `m` at `locs`, in order.
pub open spec fn lists_cells<T>(
    found: Seq<Neighbor<'_, T>>,
    m: MatrixView<T>,
    locs: Seq<(int, int)>,
) -> bool {
    &&& found.len() == locs.len()
    &&& forall|k: int| 0 <= k < found.len() ==> (#[trigger] found[k]).is_cell(m, locs[k])
}

/// The steps as pairs of mathematical integers.
pub open spec fn as_steps(steps: Seq<(isize, isize)>) -> Seq<(int, int)> {
    steps.map_values(|d: (isize, isize)| (d.0 as int, d.1 as int))
}

impl<T> Matrix<T> {
    /// The cell one step away from `(row, col)`, if that step stays inside
    /// the matrix.
    fn neighbor_at(&self, row: usize, col: usize, step: (isize, isize)) -> (found: Option<
        Neighbor<'_, T>,
    >)
        ensures
            found is Some <==> self@.in_range(row + step.0, col + step.1),
            found is Some ==> found->0.is_cell(self@, (row + step.0, col + step.1)),
    {
        proof {
            self.lemma_shape_fits();
        }
        let to_row = match row.checked_add_signed(step.0) {
            Some(r) => r,
            None => { return None; },
        };
        let to_col = match col.checked_add_signed(step.1) {
            Some(c) => c,
            None => { return None; },
        };
        match self.get(to_row, to_col) {
            Some(value) => Some(Neighbor { loc: (to_row, to_col), value }),
            None => None,
        }
    }

    /// The cells one step away from `(row, col)`, for the given steps in
    /// their order.
    fn collect_neighbors(&self, row: usize, col: usize, steps: &Vec<(isize, isize)>) -> (found: Vec<
        Neighbor<'_, T>,
    >)
        ensures
            lists_cells(found@, self@, self@.reachable(row as int, col as int, as_steps(steps@))),
    {
        let mut found: Vec<Neighbor<'_, T>> = Vec::new();
        let mut i: usize = 0;
        while i < steps.len()
            invariant
                i <= steps@.len(),
                lists_cells(
                    found@,
                    self@,
                    self@.reachable(row as int, col as int, as_steps(steps@).take(i as int)),
                ),
            decreases steps@.len() - i,
        {
            proof {
                let all = as_steps(steps@);
                assert(all.take(i + 1).drop_last() == all.take(i as int));
                assert(all.take(i + 1).last() == (
                    steps@[i as int].0 as int,
                    steps@[i as int].1 as int,
                ));
            }
            match self.neighbor_at(row, col, steps[i]) {
                Some(neighbor) => {
                    found.push(neighbor);
                },
                None => {},
            }
            i += 1;
        }
        proof {
            assert(as_steps(steps@).take(steps@.len() as int) == as_steps(steps@));
        }
        found
    }

    /// The neighbors of `(row, col)` that share an edge with it and lie
    /// inside the matrix, each with its location: above, below, left, right,
    /// in that order.
    pub fn neighbors(&self, row: usize, col: usize) -> (found: Vec<Neighbor<'_, T>>)
        ensures
            lists_cells(found@, self@, self@.reachable(row as int, col as int, straight_steps())),
    {
        let steps: Vec<(isize, isize)> = vec![(-1, 0), (1, 0), (0, -1), (0, 1)];
        proof {
            assert(as_steps(steps@) == straight_steps());
        }
        self.collect_neighbors(row, col, &steps)
    }

    /// The neighbors of `(row, col)` inside the matrix, diagonal ones
    /// included: first those that share an edge, then upper left, lower
    /// right, upper right, lower left.
    pub fn neighbors_with_diagonals(&self, row: usize, col: usize) -> (found: Vec<Neighbor<'_, T>>)
        ensures
            lists_cells(
                found@,
                self@,
                self@.reachable(row as int, col as int, straight_steps() + diagonal_steps()),
            ),
    {
        let steps: Vec<(isize, isize)> = vec![
            (-1, 0),
            (1, 0),
            (0, -1),
            (0, 1),
            (-1, -1),
            (1, 1),
            (-1, 1),
            (1, -1),
        ];
        proof {
            assert(as_steps(steps@) == straight_steps() + diagonal_steps());
        }
        self.collect_neighbors(row, col, &steps)
    }
}

} // verus!
