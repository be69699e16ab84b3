//! An earlier, row-of-rows matrix kept for its small fixed-shape uses.

use vstd::prelude::*;

verus! {

/// A matrix stored as a vector of equally long rows.
#[derive(Clone, Debug)]
pub struct Matrix<T> {
    pub storage: Vec<Vec<T>>,
}

impl<T> Matrix<T> {
    /// Every row has the same length.
    pub open spec fn wf(&self) -> bool {
        forall|i: int|
            0 <= i < self.storage.len() ==> (#[trigger] self.storage[i]).len()
                == self.spec_cols()
    }

    pub open spec fn spec_rows(&self) -> nat {
        self.storage.len() as nat
    }

    pub open spec fn spec_cols(&self) -> nat {
        if self.storage.len() == 0 {
            0
        } else {
            self.storage[0].len() as nat
        }
    }

    pub open spec fn spec_at(&self, i: int, j: int) -> T {
        self.storage[i][j]
    }

    /// The cell at `(i, j)`, if in bounds.
    pub fn get(&self, index: (usize, usize)) -> (r: Option<&T>)
        ensures
            match r {
                Some(t) => index.0 < self.storage.len() && index.1 < self.storage[index.0 as int].len()
                    && *t == self.spec_at(index.0 as int, index.1 as int),
                None => !(index.0 < self.storage.len() && index.1 < self.storage[index.0 as int].len()),
            },
    {
        let (i, j) = index;
        if i < self.storage.len() {
            let row = &self.storage[i];
            if j < row.len() {
                Some(&row[j])
            } else {
                None
            }
        } else {
            None
        }
    }

    /// Replace the cell at `(i, j)`, leaving every other cell unchanged.
    pub fn set(&mut self, index: (usize, usize), value: T)
        requires
            index.0 < old(self).storage.len(),
            index.1 < old(self).storage[index.0 as int].len(),
        ensures
            final(self).storage.len() == old(self).storage.len(),
            final(self).spec_at(index.0 as int, index.1 as int) == value,
            forall|i: int|
                0 <= i < final(self).storage.len() ==> (#[trigger] final(self).storage[i]).len()
                    == old(self).storage[i].len(),
            forall|i: int, j: int|
                0 <= i < final(self).storage.len() && 0 <= j < final(self).storage[i].len() && (
                i,
                j,
                ) != (index.0 as int, index.1 as int) ==> final(self).spec_at(i, j) == old(
                    self,
                ).spec_at(i, j),
    {
        let (i, j) = index;
        let row = &mut self.storage[i];
        row.set(j, value);
    }

    /// The shape `(rows, columns)`; the column count is that of the first
    /// row, or zero for an empty matrix.
    pub fn shape(&self) -> (r: (usize, usize))
        ensures
            r.0 == self.spec_rows(),
            r.1 == self.spec_cols(),
    {
        let rows = self.storage.len();
        let cols = if rows == 0 {
            0
        } else {
            self.storage[0].len()
        };
        (rows, cols)
    }
}

impl<T: Clone> Matrix<T> {
    /// A matrix of the given shape with every cell a clone of `t`.
    pub fn with_shape(t: T, shape: (usize, usize)) -> (r: Matrix<T>)
        ensures
            r.spec_rows() == shape.0,
            forall|i: int| 0 <= i < shape.0 ==> (#[trigger] r.storage[i]).len() == shape.1,
            r.wf(),
    {
        let (m, n) = shape;
        let mut storage: Vec<Vec<T>> = Vec::new();
        let mut i: usize = 0;
        while i < m
            invariant
                i <= m,
                storage.len() == i,
                forall|k: int| 0 <= k < i ==> (#[trigger] storage[k]).len() == n,
            decreases m - i,
        {
            let mut row: Vec<T> = Vec::new();
            let mut j: usize = 0;
            while j < n
                invariant
                    j <= n,
                    row.len() == j,
                decreases n - j,
            {
                row.push(t.clone());
                j = j + 1;
            }
            storage.push(row);
            i = i + 1;
        }
        Matrix { storage }
    }
}

} // verus!
