//! A rectangular matrix stored as one flat vector in row-major order.

use vstd::prelude::*;

verus! {

pub type MatrixShape = (usize, usize);

pub type MatrixIndex = (usize, usize);

/// An `m x n` matrix; `storage[i * n + j]` holds the cell at row `i`,
/// column `j`.
#[derive(Debug)]
pub struct Matrix<T> {
    pub shape: MatrixShape,
    pub storage: Vec<T>,
}

impl<T: Clone> Clone for Matrix<T> {
    /// Clone the shape and every cell.
    fn clone(&self) -> (r: Self)
        ensures
            r.shape == self.shape,
            r.storage.len() == self.storage.len(),
    {
        Matrix { shape: self.shape, storage: self.storage.clone() }
    }
}

impl<T> Matrix<T> {
    /// The storage really is one cell per `(row, column)` pair.
    pub open spec fn wf(&self) -> bool {
        self.storage.len() == self.shape.0 * self.shape.1
    }

    /// The cell at row `i`, column `j`.
    pub open spec fn spec_at(&self, i: int, j: int) -> T {
        self.storage[i * self.shape.1 + j]
    }

    pub open spec fn spec_m(&self) -> nat {
        self.shape.0 as nat
    }

    pub open spec fn spec_n(&self) -> nat {
        self.shape.1 as nat
    }

    /// Whether `(i, j)` lies inside the shape.
    pub open spec fn in_bounds(&self, i: int, j: int) -> bool {
        0 <= i < self.spec_m() && 0 <= j < self.spec_n()
    }

    /// Flat offset of an index, if the index is in bounds.
    pub fn offset(&self, index: MatrixIndex) -> (r: Option<usize>)
        requires
            self.wf(),
        ensures
            match r {
                Some(o) => self.in_bounds(index.0 as int, index.1 as int) && o == index.0
                    * self.spec_n() + index.1 && o < self.storage.len(),
                None => !self.in_bounds(index.0 as int, index.1 as int),
            },
    {
        let (i, j) = index;
        let (m, n) = self.shape;
        if i < m && j < n {
            proof {
                lemma_row_major_offset(i as int, j as int, m as int, n as int);
            }
            Some(i * n + j)
        } else {
            None
        }
    }

    /// Flat offset of an index assumed to be in bounds.
    pub fn offset_unchecked(&self, index: MatrixIndex) -> (r: usize)
        requires
            self.wf(),
            self.in_bounds(index.0 as int, index.1 as int),
        ensures
            r == index.0 * self.spec_n() + index.1,
            r < self.storage.len(),
    {
        let (i, j) = index;
        let (_m, n) = self.shape;
        proof {
            lemma_row_major_offset(i as int, j as int, self.shape.0 as int, n as int);
        }
        i * n + j
    }

    /// The index whose flat offset is `offset`, if any.
    pub fn index_from_offset(&self, offset: usize) -> (r: Option<MatrixIndex>)
        requires
            self.wf(),
            self.spec_n() > 0,
        ensures
            match r {
                Some(index) => offset < self.storage.len() && self.in_bounds(
                    index.0 as int,
                    index.1 as int,
                ) && offset == index.0 * self.spec_n() + index.1,
                None => offset >= self.storage.len(),
            },
    {
        if offset < self.storage.len() {
            Some(self.index_from_offset_unchecked(offset))
        } else {
            None
        }
    }

    /// The index whose flat offset is `offset`, assumed below the storage
    /// length.
    pub fn index_from_offset_unchecked(&self, offset: usize) -> (r: MatrixIndex)
        requires
            self.wf(),
            self.spec_n() > 0,
            offset < self.storage.len(),
        ensures
            self.in_bounds(r.0 as int, r.1 as int),
            offset == r.0 * self.spec_n() + r.1,
    {
        let (_m, n) = self.shape;
        proof {
            vstd::arithmetic::div_mod::lemma_fundamental_div_mod(offset as int, n as int);
            assert(offset / n < self.shape.0) by (nonlinear_arith)
                requires
                    n > 0,
                    offset < self.shape.0 * n,
                    offset == n * (offset / n) + offset % n,
                    0 <= offset % n < n,
            ;
            lemma_row_major_offset(offset as int / n as int, offset as int % n as int, self.shape.0 as int, n as int);
        }
        (offset / n, offset % n)
    }

    /// The shape `(rows, columns)`.
    pub fn shape(&self) -> (r: MatrixShape)
        ensures
            r == self.shape,
    {
        self.shape
    }

    /// The cell at `index`, if in bounds.
    pub fn get(&self, index: MatrixIndex) -> (r: Option<&T>)
        requires
            self.wf(),
        ensures
            match r {
                Some(t) => self.in_bounds(index.0 as int, index.1 as int) && *t == self.spec_at(
                    index.0 as int,
                    index.1 as int,
                ),
                None => !self.in_bounds(index.0 as int, index.1 as int),
            },
    {
        match self.offset(index) {
            Some(o) => Some(&self.storage[o]),
            None => None,
        }
    }

    /// Replace the cell at `index`, leaving every other cell unchanged.
    pub fn set(&mut self, index: MatrixIndex, value: T)
        requires
            old(self).wf(),
            old(self).in_bounds(index.0 as int, index.1 as int),
        ensures
            final(self).wf(),
            final(self).shape == old(self).shape,
            final(self).spec_at(index.0 as int, index.1 as int) == value,
            forall|i: int, j: int|
                final(self).in_bounds(i, j) && (i, j) != (index.0 as int, index.1 as int)
                    ==> final(self).spec_at(i, j) == old(self).spec_at(i, j),
            final(self).storage.len() == old(self).storage.len(),
    {
        let o = self.offset_unchecked(index);
        self.storage.set(o, value);
        proof {
            assert forall|i: int, j: int|
                self.in_bounds(i, j) && (i, j) != (index.0 as int, index.1 as int)
                    implies self.spec_at(i, j) == old(self).spec_at(i, j) by {
                lemma_row_major_offset(i, j, self.shape.0 as int, self.shape.1 as int);
                lemma_row_major_offset(
                    index.0 as int,
                    index.1 as int,
                    self.shape.0 as int,
                    self.shape.1 as int,
                );
                if i * self.shape.1 + j == index.0 * self.shape.1 + index.1 {
                    lemma_row_major_injective(
                        i,
                        j,
                        index.0 as int,
                        index.1 as int,
                        self.shape.1 as int,
                    );
                }
            }
        }
    }

    /// All indices of the matrix in row-major order.
    pub fn indices(&self) -> (r: Vec<MatrixIndex>)
        requires
            self.wf(),
        ensures
            r.len() == self.storage.len(),
            forall|k: int|
                0 <= k < r.len() ==> self.in_bounds(#[trigger] r[k].0 as int, r[k].1 as int)
                    && r[k].0 * self.spec_n() + r[k].1 == k,
    {
        let (m, n) = self.shape;
        let mut r: Vec<MatrixIndex> = Vec::new();
        let mut i: usize = 0;
        while i < m
            invariant
                i <= m,
                self.wf(),
                (m, n) == self.shape,
                r.len() == i * n,
                forall|k: int|
                    0 <= k < r.len() ==> self.in_bounds(#[trigger] r[k].0 as int, r[k].1 as int)
                        && r[k].0 * self.spec_n() + r[k].1 == k,
            decreases m - i,
        {
            let mut j: usize = 0;
            while j < n
                invariant
                    i < m,
                    j <= n,
                    self.wf(),
                    (m, n) == self.shape,
                    r.len() == i * n + j,
                    forall|k: int|
                        0 <= k < r.len() ==> self.in_bounds(
                            #[trigger] r[k].0 as int,
                            r[k].1 as int,
                        ) && r[k].0 * self.spec_n() + r[k].1 == k,
                decreases n - j,
            {
                proof {
                    lemma_row_major_offset(i as int, j as int, m as int, n as int);
                }
                r.push((i, j));
                j = j + 1;
            }
            proof {
                assert((i + 1) * n == i * n + n) by (nonlinear_arith);
            }
            i = i + 1;
        }
        proof {
            assert(m * n == self.storage.len());
        }
        r
    }
}

impl<T: Clone> Matrix<T> {
    /// A matrix of the given shape with every cell a clone of `t`.
    pub fn with_shape(t: T, shape: MatrixShape) -> (r: Matrix<T>)
        requires
            shape.0 * shape.1 <= usize::MAX,
        ensures
            r.wf(),
            r.shape == shape,
    {
        let (m, n) = shape;
        let mut storage: Vec<T> = Vec::new();
        let mut k: usize = 0;
        proof {
            assert(m * n <= usize::MAX);
        }
        let total = m * n;
        while k < total
            invariant
                storage.len() == k,
                k <= total,
            decreases total - k,
        {
            storage.push(t.clone());
            k = k + 1;
        }
        Matrix { shape: (m, n), storage }
    }
}

/// In-bounds row-major offsets stay below `m * n`.
pub proof fn lemma_row_major_offset(i: int, j: int, m: int, n: int)
    requires
        0 <= i < m,
        0 <= j < n,
    ensures
        0 <= i * n + j < m * n,
{
    assert(0 <= i * n + j < m * n) by (nonlinear_arith)
        requires
            0 <= i < m,
            0 <= j < n,
    ;
}

/// Row-major offsets are injective over in-bounds indices.
pub proof fn lemma_row_major_injective(i1: int, j1: int, i2: int, j2: int, n: int)
    requires
        0 <= j1 < n,
        0 <= j2 < n,
        0 <= i1,
        0 <= i2,
        i1 * n + j1 == i2 * n + j2,
    ensures
        i1 == i2 && j1 == j2,
{
    assert(i1 == i2 && j1 == j2) by (nonlinear_arith)
        requires
            0 <= j1 < n,
            0 <= j2 < n,
            0 <= i1,
            0 <= i2,
            i1 * n + j1 == i2 * n + j2,
    ;
}

} // verus!
