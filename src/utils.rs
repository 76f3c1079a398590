//! Helpers on nested vectors, coordinates and masks.

use vstd::arithmetic::div_mod::lemma_fundamental_div_mod_converse;
use crate::matrix::Mat;
use vstd::prelude::*;

verus! {

/// The coordinate `(x, y)` of the `k`-th cell of a `height`-row matrix in
/// column-major order.
pub open spec fn col_major_coord(height: int, k: int) -> (usize, usize) {
    ((k / height) as usize, (k % height) as usize)
}

/// All coordinates `(x, y)` of a matrix of shape `(height, width)`, column
/// after column: the `k`-th one is `(k / height, k % height)`.
pub fn coords_col_major(shape: (usize, usize)) -> (r: Vec<(usize, usize)>)
    ensures
        r@.len() == shape.0 * shape.1,
        forall|k: int| 0 <= k < r@.len() ==> #[trigger] r@[k] == col_major_coord(shape.0 as int, k),
{
    let (height, width) = shape;
    let mut r: Vec<(usize, usize)> = Vec::new();
    let mut x: usize = 0;
    while x < width
        invariant
            x <= width,
            r@.len() == x * height,
            forall|k: int| 0 <= k < r@.len() ==> #[trigger] r@[k] == col_major_coord(height as int, k),
        decreases width - x,
    {
        let mut y: usize = 0;
        while y < height
            invariant
                x < width,
                y <= height,
                r@.len() == x * height + y,
                forall|k: int| 0 <= k < r@.len() ==> #[trigger] r@[k] == col_major_coord(height as int, k),
            decreases height - y,
        {
            proof {
                lemma_fundamental_div_mod_converse(x * height + y, height as int, x as int, y as int);
            }
            r.push((x, y));
            y = y + 1;
        }
        proof {
            assert((x + 1) * height == x * height + height) by (nonlinear_arith);
        }
        x = x + 1;
    }
    proof {
        assert(width * height == height * width) by (nonlinear_arith);
    }
    r
}

/// The coordinate `(x, y)` of the `k`-th cell of a `width`-column matrix in
/// row-major order.
pub open spec fn row_major_coord(width: int, k: int) -> (usize, usize) {
    ((k % width) as usize, (k / width) as usize)
}

/// All coordinates `(x, y)` of a matrix of shape `(height, width)`, row after
/// row: the `k`-th one is `(k % width, k / width)`.
pub fn coords_row_major(shape: (usize, usize)) -> (r: Vec<(usize, usize)>)
    ensures
        r@.len() == shape.0 * shape.1,
        forall|k: int| 0 <= k < r@.len() ==> #[trigger] r@[k] == row_major_coord(shape.1 as int, k),
{
    let (height, width) = shape;
    let mut r: Vec<(usize, usize)> = Vec::new();
    let mut y: usize = 0;
    while y < height
        invariant
            y <= height,
            r@.len() == y * width,
            forall|k: int| 0 <= k < r@.len() ==> #[trigger] r@[k] == row_major_coord(width as int, k),
        decreases height - y,
    {
        let mut x: usize = 0;
        while x < width
            invariant
                y < height,
                x <= width,
                r@.len() == y * width + x,
                forall|k: int| 0 <= k < r@.len() ==> #[trigger] r@[k] == row_major_coord(width as int, k),
            decreases width - x,
        {
            proof {
                lemma_fundamental_div_mod_converse(y * width + x, width as int, y as int, x as int);
            }
            r.push((x, y));
            x = x + 1;
        }
        proof {
            assert((y + 1) * width == y * width + width) by (nonlinear_arith);
        }
        y = y + 1;
    }
    r
}

/// Every inner vector of `v` has the length of the first one.
pub open spec fn is_rectangular<T>(v: Seq<Vec<T>>) -> bool {
    forall|i: int| 0 <= i < v.len() ==> #[trigger] v[i]@.len() == v[0]@.len()
}

/// Transposes a vector of equally long vectors: entry `j` of the result
/// gathers entry `j` of every inner vector, in order. An empty input, or one
/// whose inner vectors are empty, gives an empty result.
pub fn transpose<T>(v: Vec<Vec<T>>) -> (r: Vec<Vec<T>>)
    requires
        is_rectangular(v@),
    ensures
        v@.len() == 0 || v@[0]@.len() == 0 ==> r@.len() == 0,
        v@.len() > 0 ==> r@.len() == v@[0]@.len(),
        forall|j: int| 0 <= j < r@.len() ==> #[trigger] r@[j]@.len() == v@.len(),
        forall|i: int, j: int|
            0 <= i < v@.len() && 0 <= j < r@.len() ==> #[trigger] r@[j]@[i] == v@[i]@[j],
{
    let n = v.len();
    if n == 0 {
        return Vec::new();
    }
    let m = v[0].len();
    if m == 0 {
        return Vec::new();
    }
    let mut out: Vec<Vec<T>> = Vec::new();
    let mut j: usize = 0;
    while j < m
        invariant
            j <= m,
            out@.len() == j,
            forall|jj: int| 0 <= jj < j ==> (#[trigger] out@[jj])@.len() == 0,
        decreases m - j,
    {
        out.push(Vec::new());
        j = j + 1;
    }
    let mut rest = v;
    let mut i: usize = 0;
    while i < n
        invariant
            n == v@.len(),
            m == v@[0]@.len(),
            is_rectangular(v@),
            i <= n,
            rest@ == v@.subrange(i as int, n as int),
            out@.len() == m,
            forall|jj: int| 0 <= jj < m ==> (#[trigger] out@[jj])@.len() == i,
            forall|k: int, jj: int|
                0 <= k < i && 0 <= jj < m ==> #[trigger] out@[jj]@[k] == v@[k]@[jj],
        decreases n - i,
    {
        let mut vi = rest.remove(0);
        assert(vi@ == v@[i as int]@);
        let mut jr: usize = m;
        while jr > 0
            invariant
                n == v@.len(),
                m == v@[0]@.len(),
                is_rectangular(v@),
                i < n,
                jr <= m,
                vi@ == v@[i as int]@.subrange(0, jr as int),
                out@.len() == m,
                forall|jj: int| 0 <= jj < jr ==> (#[trigger] out@[jj])@.len() == i,
                forall|jj: int| jr <= jj < m ==> (#[trigger] out@[jj])@.len() == i + 1,
                forall|k: int, jj: int|
                    0 <= k < i && 0 <= jj < m ==> #[trigger] out@[jj]@[k] == v@[k]@[jj],
                forall|jj: int| jr <= jj < m ==> #[trigger] out@[jj]@[i as int] == v@[i as int]@[jj],
            decreases jr,
        {
            jr = jr - 1;
            let x = vi.pop().unwrap();
            out[jr].push(x);
        }
        i = i + 1;
    }
    out
}

/// The coordinates `(x, y)` of the set cells among the first `k` cells of a
/// column-major mask with `height` rows, in storage order.
pub open spec fn mask_coords(mask: Seq<bool>, height: int, k: int) -> Seq<(usize, usize)>
    decreases k,
{
    if k <= 0 {
        Seq::empty()
    } else if mask[k - 1] {
        mask_coords(mask, height, k - 1).push(col_major_coord(height, k - 1))
    } else {
        mask_coords(mask, height, k - 1)
    }
}

/// The coordinates `(x, y)` of the set cells of a mask, column after column.
pub fn coordinates_from_mask(mask: &Mat<bool>) -> (r: Vec<(usize, usize)>)
    requires
        mask.wf(),
    ensures
        r@ == mask_coords(mask.data@, mask.nrows as int, mask.data@.len() as int),
{
    let height = mask.nrows;
    let mut r: Vec<(usize, usize)> = Vec::new();
    let mut k: usize = 0;
    while k < mask.data.len()
        invariant
            mask.wf(),
            height == mask.nrows,
            k <= mask.data@.len(),
            r@ == mask_coords(mask.data@, height as int, k as int),
        decreases mask.data@.len() - k,
    {
        proof {
            if height == 0 {
                assert(height * mask.ncols == 0) by (nonlinear_arith)
                    requires
                        height == 0,
                ;
            }
        }
        if mask.data[k] {
            r.push((k / height, k % height));
        }
        k = k + 1;
    }
    r
}

} // verus!
