//! Dense matrices stored column by column.

use vstd::prelude::*;

verus! {

/// Index of the entry at `(row, col)` in the column-major storage of a
/// matrix with `nrows` rows.
pub open spec fn col_major_index(nrows: int, row: int, col: int) -> int {
    col * nrows + row
}

/// An entry of a column-major matrix lies inside its storage.
pub proof fn lemma_index_in_bounds(nrows: int, ncols: int, row: int, col: int)
    requires
        0 <= row < nrows,
        0 <= col < ncols,
    ensures
        0 <= col_major_index(nrows, row, col) < nrows * ncols,
{
    assert(col * nrows + row < nrows * ncols) by (nonlinear_arith)
        requires
            0 <= row < nrows,
            0 <= col < ncols,
    ;
    assert(0 <= col * nrows) by (nonlinear_arith)
        requires
            0 <= col,
            0 <= nrows,
    ;
}

/// A dense matrix of `nrows` rows and `ncols` columns. Entry `(row, col)` is
/// `data[col * nrows + row]`. Rows run along the vertical axis (y) and
/// columns along the horizontal axis (x).
pub struct Mat<T> {
    pub nrows: usize,
    pub ncols: usize,
    pub data: Vec<T>,
}

impl<T> Mat<T> {
    /// The storage holds exactly one entry per cell.
    pub open spec fn wf(&self) -> bool {
        self.data@.len() == self.nrows * self.ncols
    }

    /// The entry at `(row, col)`.
    pub open spec fn at(&self, row: int, col: int) -> T {
        self.data@[col_major_index(self.nrows as int, row, col)]
    }

    /// `(nrows, ncols)`.
    pub fn shape(&self) -> (r: (usize, usize))
        ensures
            r == (self.nrows, self.ncols),
    {
        (self.nrows, self.ncols)
    }

    /// Reference to the entry at `(row, col)`.
    pub fn get(&self, row: usize, col: usize) -> (r: &T)
        requires
            self.wf(),
            row < self.nrows,
            col < self.ncols,
        ensures
            *r == self.at(row as int, col as int),
    {
        proof {
            lemma_index_in_bounds(self.nrows as int, self.ncols as int, row as int, col as int);
            assert(self.data@.len() == self.data.len());
        }
        &self.data[col * self.nrows + row]
    }
}

/// Views the storage of `m` as a matrix of `nrows` rows and `ncols` columns,
/// without moving any value.
pub fn reshape<T>(m: Mat<T>, nrows: usize, ncols: usize) -> (r: Mat<T>)
    requires
        m.wf(),
        nrows * ncols == m.nrows * m.ncols,
    ensures
        r.wf(),
        r.nrows == nrows,
        r.ncols == ncols,
        r.data@ == m.data@,
{
    Mat { nrows, ncols, data: m.data }
}

/// `g` has the shape of `m` and holds the second component of each of its
/// entries.
pub open spec fn is_green_of<T>(m: Mat<(T, T, T)>, g: Mat<T>) -> bool {
    &&& g.wf()
    &&& g.nrows == m.nrows
    &&& g.ncols == m.ncols
    &&& forall|k: int| 0 <= k < g.data@.len() ==> #[trigger] g.data@[k] == m.data@[k].1
}

/// The second (green) component of every entry of a matrix of triples.
pub fn green_channel<T: Copy>(m: &Mat<(T, T, T)>) -> (r: Mat<T>)
    requires
        m.wf(),
    ensures
        is_green_of(*m, r),
        forall|y: int, x: int|
            0 <= y < m.nrows && 0 <= x < m.ncols ==> #[trigger] r.at(y, x) == m.at(y, x).1,
{
    let mut data: Vec<T> = Vec::new();
    let mut k: usize = 0;
    while k < m.data.len()
        invariant
            k <= m.data@.len(),
            data@.len() == k,
            forall|j: int| 0 <= j < k ==> #[trigger] data@[j] == m.data@[j].1,
        decreases m.data@.len() - k,
    {
        data.push(m.data[k].1);
        k = k + 1;
    }
    let r = Mat { nrows: m.nrows, ncols: m.ncols, data };
    proof {
        assert forall|y: int, x: int|
            0 <= y < m.nrows && 0 <= x < m.ncols implies #[trigger] r.at(y, x) == m.at(y, x).1 by {
            lemma_index_in_bounds(m.nrows as int, m.ncols as int, y, x);
        }
    }
    r
}

/// Every 16-bit entry divided by 256, rounded down: its high byte.
pub fn into_gray_u8(m: Mat<u16>) -> (r: Mat<u8>)
    requires
        m.wf(),
    ensures
        r.wf(),
        r.nrows == m.nrows,
        r.ncols == m.ncols,
        forall|k: int| 0 <= k < r.data@.len() ==> #[trigger] r.data@[k] == m.data@[k] / 256,
{
    let mut data: Vec<u8> = Vec::new();
    let mut k: usize = 0;
    while k < m.data.len()
        invariant
            k <= m.data@.len(),
            data@.len() == k,
            forall|j: int| 0 <= j < k ==> #[trigger] data@[j] == m.data@[j] / 256,
        decreases m.data@.len() - k,
    {
        data.push((m.data[k] / 256) as u8);
        k = k + 1;
    }
    Mat { nrows: m.nrows, ncols: m.ncols, data }
}

} // verus!
