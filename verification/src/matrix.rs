use vstd::prelude::*;

use crate::error::TLCError;

verus! {

/// A dense row-major matrix over plain values.
///
/// The intensity pipeline stores single-byte green values in one of these
/// (frames as rows, pixels as columns); the temperature stages instantiate
/// the same shape with the scalar the caller works in.
pub struct Matrix<T> {
    data: Vec<T>,
    rows: usize,
    cols: usize,
}

impl<T> Matrix<T> {
    /// The matrix's cells, row-major.
    pub closed spec fn view(&self) -> Seq<T> {
        self.data@
    }

    /// Number of rows.
    pub closed spec fn spec_rows(&self) -> nat {
        self.rows as nat
    }

    /// Number of columns.
    pub closed spec fn spec_cols(&self) -> nat {
        self.cols as nat
    }

    /// The backing vector holds exactly one cell per position of the grid.
    pub open spec fn wf(&self) -> bool {
        self.view().len() == self.spec_rows() * self.spec_cols()
    }

    /// The cell in row `r`, column `c`.
    pub open spec fn at(&self, r: int, c: int) -> T {
        self.view()[r * self.spec_cols() + c]
    }

    /// Column `c` as a sequence, top to bottom.
    pub open spec fn col(&self, c: int) -> Seq<T> {
        Seq::new(self.spec_rows(), |r: int| self.at(r, c))
    }

    /// Row `r` as a sequence, left to right.
    pub open spec fn row(&self, r: int) -> Seq<T> {
        Seq::new(self.spec_cols(), |c: int| self.at(r, c))
    }

    /// Row and column counts are machine sizes.
    pub proof fn lemma_dims_bound(&self)
        ensures
            self.spec_rows() <= usize::MAX,
            self.spec_cols() <= usize::MAX,
    {
    }

    /// A matrix never holds more cells than a vector can.
    pub proof fn lemma_size_bound(&self)
        requires
            self.wf(),
        ensures
            self.spec_rows() * self.spec_cols() <= usize::MAX,
    {
        assert(self.data.len() <= usize::MAX);
    }

    /// Number of rows, as executable code.
    pub fn nrows(&self) -> (r: usize)
        ensures
            r == self.spec_rows(),
    {
        self.rows
    }

    /// Number of columns, as executable code.
    pub fn ncols(&self) -> (r: usize)
        ensures
            r == self.spec_cols(),
    {
        self.cols
    }

    /// Read-only access to the backing row-major buffer.
    pub fn as_vec(&self) -> (r: &Vec<T>)
        ensures
            r@ == self.view(),
    {
        &self.data
    }

    /// Wraps a row-major buffer as a matrix, rejecting a length that does
    /// not match the shape.
    pub fn from_vec(data: Vec<T>, rows: usize, cols: usize) -> (r: Result<Matrix<T>, TLCError>)
        ensures
            match r {
                Ok(m) => {
                    &&& m.wf()
                    &&& m.view() == data@
                    &&& m.spec_rows() == rows
                    &&& m.spec_cols() == cols
                    &&& data@.len() == rows * cols
                },
                Err(e) => {
                    &&& data@.len() != rows * cols
                    &&& e matches TLCError::LengthMismatch { expected: _, actual }
                        && actual == data@.len()
                },
            },
    {
        let len = data.len();
        if let Some(expected) = rows.checked_mul(cols) {
            if len == expected {
                Ok(Matrix { data, rows, cols })
            } else {
                Err(TLCError::LengthMismatch { expected, actual: len })
            }
        } else {
            proof {
                assert(rows * cols > usize::MAX);
            }
            Err(TLCError::LengthMismatch { expected: usize::MAX, actual: len })
        }
    }
}

/// In a row-major layout, a cell's flat index stays below the buffer length.
pub proof fn lemma_row_major_index(r: int, c: int, rows: int, cols: int) by (nonlinear_arith)
    requires
        0 <= r < rows,
        0 <= c < cols,
    ensures
        0 <= r * cols + c < rows * cols,
{
}

impl<T: Copy> Matrix<T> {
    /// A matrix of the given shape with every cell set to `fill`.
    pub fn filled(rows: usize, cols: usize, fill: T) -> (r: Result<Matrix<T>, TLCError>)
        ensures
            match r {
                Ok(m) => {
                    &&& m.wf()
                    &&& m.spec_rows() == rows
                    &&& m.spec_cols() == cols
                    &&& forall|i: int| 0 <= i < m.view().len() ==> m.view()[i] == fill
                },
                Err(_) => rows * cols > usize::MAX,
            },
    {
        if let Some(len) = rows.checked_mul(cols) {
            let mut data: Vec<T> = Vec::new();
            let mut i: usize = 0;
            while i < len
                invariant
                    i <= len,
                    data@.len() == i,
                    forall|j: int| 0 <= j < i ==> data@[j] == fill,
                decreases len - i,
            {
                data.push(fill);
                i += 1;
            }
            Ok(Matrix { data, rows, cols })
        } else {
            Err(TLCError::LengthMismatch { expected: usize::MAX, actual: 0 })
        }
    }

    /// The cell in row `r`, column `c`.
    pub fn get(&self, r: usize, c: usize) -> (v: T)
        requires
            self.wf(),
            r < self.spec_rows(),
            c < self.spec_cols(),
        ensures
            v == self.at(r as int, c as int),
    {
        proof {
            assert(self.data.len() <= usize::MAX);
            lemma_row_major_index(r as int, c as int, self.spec_rows() as int, self.spec_cols() as int);
        }
        self.data[r * self.cols + c]
    }

    /// Replaces the cell in row `r`, column `c`.
    pub fn set(&mut self, r: usize, c: usize, v: T)
        requires
            old(self).wf(),
            r < old(self).spec_rows(),
            c < old(self).spec_cols(),
        ensures
            final(self).wf(),
            final(self).spec_rows() == old(self).spec_rows(),
            final(self).spec_cols() == old(self).spec_cols(),
            final(self).view() == old(self).view().update(r * old(self).spec_cols() + c, v),
    {
        proof {
            assert(self.data.len() <= usize::MAX);
            lemma_row_major_index(r as int, c as int, self.spec_rows() as int, self.spec_cols() as int);
        }
        let i = r * self.cols + c;
        self.data.set(i, v);
    }

    /// Copies row `r` out as a vector.
    pub fn row_to_vec(&self, r: usize) -> (v: Vec<T>)
        requires
            self.wf(),
            r < self.spec_rows(),
        ensures
            v@.len() == self.spec_cols(),
            forall|c: int| 0 <= c < self.spec_cols() ==> v@[c] == self.at(r as int, c),
    {
        let mut v: Vec<T> = Vec::new();
        let mut c: usize = 0;
        while c < self.cols
            invariant
                self.wf(),
                r < self.spec_rows(),
                c <= self.spec_cols(),
                v@.len() == c,
                forall|j: int| 0 <= j < c ==> v@[j] == self.at(r as int, j),
            decreases self.cols - c,
        {
            let x = self.get(r, c);
            v.push(x);
            c += 1;
        }
        v
    }

    /// Copies column `c` out as a vector.
    pub fn col_to_vec(&self, c: usize) -> (v: Vec<T>)
        requires
            self.wf(),
            c < self.spec_cols(),
        ensures
            v@.len() == self.spec_rows(),
            forall|r: int| 0 <= r < self.spec_rows() ==> v@[r] == self.at(r, c as int),
    {
        let mut v: Vec<T> = Vec::new();
        let mut r: usize = 0;
        while r < self.rows
            invariant
                self.wf(),
                c < self.spec_cols(),
                r <= self.spec_rows(),
                v@.len() == r,
                forall|j: int| 0 <= j < r ==> v@[j] == self.at(j, c as int),
            decreases self.rows - r,
        {
            let x = self.get(r, c);
            v.push(x);
            r += 1;
        }
        v
    }

    /// Overwrites column `c` with the given values, one per row.
    pub fn set_col(&mut self, c: usize, vals: &Vec<T>)
        requires
            old(self).wf(),
            c < old(self).spec_cols(),
            vals@.len() == old(self).spec_rows(),
        ensures
            final(self).wf(),
            final(self).spec_rows() == old(self).spec_rows(),
            final(self).spec_cols() == old(self).spec_cols(),
            forall|r: int| 0 <= r < final(self).spec_rows() ==> final(self).at(r, c as int) == vals@[r],
            forall|r: int, j: int|
                0 <= r < final(self).spec_rows() && 0 <= j < final(self).spec_cols() && j != c
                    ==> final(self).at(r, j) == old(self).at(r, j),
    {
        let mut r: usize = 0;
        while r < self.rows
            invariant
                self.wf(),
                self.spec_rows() == old(self).spec_rows(),
                self.spec_cols() == old(self).spec_cols(),
                c < self.spec_cols(),
                vals@.len() == self.spec_rows(),
                r <= self.spec_rows(),
                forall|j: int| 0 <= j < r ==> self.at(j, c as int) == vals@[j],
                forall|i: int, j: int|
                    0 <= i < self.spec_rows() && 0 <= j < self.spec_cols() && (j != c || i >= r)
                        ==> self.at(i, j) == old(self).at(i, j),
            decreases self.rows - r,
        {
            let ghost prev = *self;
            let v = vals[r];
            self.set(r, c, v);
            proof {
                let rows = self.spec_rows() as int;
                let cols = self.spec_cols() as int;
                assert forall|j: int| 0 <= j <= r implies self.at(j, c as int) == vals@[j] by {
                    lemma_row_major_index(j, c as int, rows, cols);
                    lemma_row_major_index(r as int, c as int, rows, cols);
                    if j < r {
                        lemma_flat_index_distinct(j, c as int, r as int, c as int, cols);
                        assert(self.view()[j * cols + c] == prev.view()[j * cols + c]);
                    }
                }
                assert forall|i: int, j: int|
                    0 <= i < rows && 0 <= j < cols && (j != c || i > r)
                        implies self.at(i, j) == old(self).at(i, j) by {
                    lemma_row_major_index(i, j, rows, cols);
                    lemma_row_major_index(r as int, c as int, rows, cols);
                    lemma_flat_index_distinct(i, j, r as int, c as int, cols);
                    assert(self.view()[i * cols + j] == prev.view()[i * cols + j]);
                }
            }
            r += 1;
        }
    }

    /// The same matrix with its rows in reverse order (image rows versus
    /// physical rows differ in which end is the bottom).
    pub fn flip_vertical(&self) -> (m: Matrix<T>)
        requires
            self.wf(),
        ensures
            m.wf(),
            m.spec_rows() == self.spec_rows(),
            m.spec_cols() == self.spec_cols(),
            forall|r: int, c: int|
                0 <= r < m.spec_rows() && 0 <= c < m.spec_cols()
                    ==> m.at(r, c) == self.at(self.spec_rows() - 1 - r, c),
    {
        let mut data: Vec<T> = Vec::new();
        let mut r: usize = 0;
        while r < self.rows
            invariant
                self.wf(),
                r <= self.spec_rows(),
                data@.len() == r * self.spec_cols(),
                forall|i: int, j: int|
                    0 <= i < r && 0 <= j < self.spec_cols()
                        ==> #[trigger] data@[i * self.spec_cols() + j]
                            == self.at(self.spec_rows() - 1 - i, j),
            decreases self.rows - r,
        {
            let ghost prev = data@;
            let src = self.rows - 1 - r;
            let mut row = self.row_to_vec(src);
            let ghost rowseq = row@;
            data.append(&mut row);
            proof {
                let rows = self.spec_rows() as int;
                let cols = self.spec_cols() as int;
                assert(data@ == prev + rowseq);
                assert forall|i: int, j: int| 0 <= i < r + 1 && 0 <= j < cols
                    implies #[trigger] data@[i * cols + j] == self.at(rows - 1 - i, j) by {
                    lemma_row_major_index(i, j, r as int + 1, cols);
                    if i < r {
                        lemma_row_major_index(i, j, r as int, cols);
                        assert(data@[i * cols + j] == prev[i * cols + j]);
                    } else {
                        assert(i == r);
                        assert(i * cols + j == prev.len() + j);
                        assert(data@[i * cols + j] == rowseq[j]);
                    }
                }
                assert(data@.len() == (r + 1) * cols) by (nonlinear_arith)
                    requires
                        data@.len() == r * cols + cols,
                ;
            }
            r += 1;
        }
        proof {
            assert(data@.len() == self.spec_rows() * self.spec_cols());
        }
        Matrix { data, rows: self.rows, cols: self.cols }
    }
}

/// Distinct grid positions have distinct flat indices.
pub proof fn lemma_flat_index_distinct(r1: int, c1: int, r2: int, c2: int, cols: int) by (nonlinear_arith)
    requires
        0 <= c1 < cols,
        0 <= c2 < cols,
        0 <= r1,
        0 <= r2,
        !(r1 == r2 && c1 == c2),
    ensures
        r1 * cols + c1 != r2 * cols + c2,
{
}

} // verus!
