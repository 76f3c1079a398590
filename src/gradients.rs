//! Integer gradient magnitudes, used to pick the pixels that carry
//! information.

use crate::matrix::{lemma_index_in_bounds, Mat};
use crate::pixel::Pixel;
use vstd::arithmetic::div_mod::lemma_fundamental_div_mod_converse;
use vstd::prelude::*;

verus! {

/// `|a - b|`.
pub open spec fn abs_diff(a: nat, b: nat) -> nat {
    if a >= b {
        (a - b) as nat
    } else {
        (b - a) as nat
    }
}

/// Magnitude of the horizontal gradient at `(y, x)`: half the centered
/// difference, rounded down, inside; the one-sided difference on the first
/// and last column; zero in a one-column image.
pub open spec fn grad_x<P: Pixel>(m: Mat<P>, y: int, x: int) -> nat {
    if m.ncols < 2 {
        0
    } else if x == 0 {
        abs_diff(m.at(y, 1).value(), m.at(y, 0).value())
    } else if x == m.ncols - 1 {
        abs_diff(m.at(y, x).value(), m.at(y, x - 1).value())
    } else {
        abs_diff(m.at(y, x + 1).value(), m.at(y, x - 1).value()) / 2
    }
}

/// Magnitude of the vertical gradient at `(y, x)`, as `grad_x` along rows.
pub open spec fn grad_y<P: Pixel>(m: Mat<P>, y: int, x: int) -> nat {
    if m.nrows < 2 {
        0
    } else if y == 0 {
        abs_diff(m.at(1, x).value(), m.at(0, x).value())
    } else if y == m.nrows - 1 {
        abs_diff(m.at(y, x).value(), m.at(y - 1, x).value())
    } else {
        abs_diff(m.at(y + 1, x).value(), m.at(y - 1, x).value()) / 2
    }
}

/// Squared gradient norm `gx² + gy²` at `(y, x)`.
pub open spec fn grad_sqr_norm<P: Pixel>(m: Mat<P>, y: int, x: int) -> nat {
    grad_x(m, y, x) * grad_x(m, y, x) + grad_y(m, y, x) * grad_y(m, y, x)
}

/// `g` holds the squared gradient norm of every pixel of `m`.
pub open spec fn is_sqr_norm_of<P: Pixel>(m: Mat<P>, g: Mat<u64>) -> bool {
    &&& g.wf()
    &&& g.nrows == m.nrows
    &&& g.ncols == m.ncols
    &&& forall|y: int, x: int|
        0 <= y < g.nrows && 0 <= x < g.ncols ==> #[trigger] g.at(y, x) == grad_sqr_norm(m, y, x)
}

/// `|a - b|` on machine integers.
fn abs_diff_u32(a: u32, b: u32) -> (r: u32)
    ensures
        r == abs_diff(a as nat, b as nat),
{
    if a >= b {
        a - b
    } else {
        b - a
    }
}

/// Horizontal gradient magnitude at `(y, x)`.
fn grad_x_at<P: Pixel>(m: &Mat<P>, y: usize, x: usize) -> (r: u32)
    requires
        m.wf(),
        y < m.nrows,
        x < m.ncols,
    ensures
        r == grad_x(*m, y as int, x as int),
        r <= 65535,
{
    if m.ncols < 2 {
        return 0;
    }
    let (a, b) = if x == 0 {
        (m.get(y, 1).to_u32(), m.get(y, 0).to_u32())
    } else if x == m.ncols - 1 {
        (m.get(y, x).to_u32(), m.get(y, x - 1).to_u32())
    } else {
        (m.get(y, x + 1).to_u32(), m.get(y, x - 1).to_u32())
    };
    proof {
        P::lemma_range(m.at(y as int, 0));
        P::lemma_range(m.at(y as int, 1));
        P::lemma_range(m.at(y as int, x as int));
        P::lemma_range(m.at(y as int, x - 1));
        P::lemma_range(m.at(y as int, x + 1));
    }
    let d = abs_diff_u32(a, b);
    if x == 0 || x == m.ncols - 1 {
        d
    } else {
        d / 2
    }
}

/// Vertical gradient magnitude at `(y, x)`.
fn grad_y_at<P: Pixel>(m: &Mat<P>, y: usize, x: usize) -> (r: u32)
    requires
        m.wf(),
        y < m.nrows,
        x < m.ncols,
    ensures
        r == grad_y(*m, y as int, x as int),
        r <= 65535,
{
    if m.nrows < 2 {
        return 0;
    }
    let (a, b) = if y == 0 {
        (m.get(1, x).to_u32(), m.get(0, x).to_u32())
    } else if y == m.nrows - 1 {
        (m.get(y, x).to_u32(), m.get(y - 1, x).to_u32())
    } else {
        (m.get(y + 1, x).to_u32(), m.get(y - 1, x).to_u32())
    };
    proof {
        P::lemma_range(m.at(0, x as int));
        P::lemma_range(m.at(1, x as int));
        P::lemma_range(m.at(y as int, x as int));
        P::lemma_range(m.at(y - 1, x as int));
        P::lemma_range(m.at(y + 1, x as int));
    }
    let d = abs_diff_u32(a, b);
    if y == 0 || y == m.nrows - 1 {
        d
    } else {
        d / 2
    }
}

/// Squared norm of the gradient at every pixel of `m`, in integers: the
/// measure the sparse selector compares with its threshold.
pub fn squared_norm_direct<P: Pixel>(m: &Mat<P>) -> (r: Mat<u64>)
    requires
        m.wf(),
    ensures
        is_sqr_norm_of(*m, r),
{
    let height = m.nrows;
    let width = m.ncols;
    let mut data: Vec<u64> = Vec::new();
    let mut x: usize = 0;
    while x < width
        invariant
            m.wf(),
            height == m.nrows,
            width == m.ncols,
            x <= width,
            data@.len() == x * height,
            forall|k: int|
                0 <= k < data@.len() ==> #[trigger] data@[k] == grad_sqr_norm(
                    *m,
                    k % height as int,
                    k / height as int,
                ),
        decreases width - x,
    {
        let mut y: usize = 0;
        while y < height
            invariant
                m.wf(),
                height == m.nrows,
                width == m.ncols,
                x < width,
                y <= height,
                data@.len() == x * height + y,
                forall|k: int|
                    0 <= k < data@.len() ==> #[trigger] data@[k] == grad_sqr_norm(
                        *m,
                        k % height as int,
                        k / height as int,
                    ),
            decreases height - y,
        {
            let gx = grad_x_at(m, y, x) as u64;
            let gy = grad_y_at(m, y, x) as u64;
            proof {
                assert(gx * gx <= 65535 * 65535) by (nonlinear_arith)
                    requires
                        gx <= 65535,
                ;
                assert(gy * gy <= 65535 * 65535) by (nonlinear_arith)
                    requires
                        gy <= 65535,
                ;
                lemma_fundamental_div_mod_converse(x * height + y, height as int, x as int, y as int);
            }
            data.push(gx * gx + gy * gy);
            y = y + 1;
        }
        proof {
            assert((x + 1) * height == x * height + height) by (nonlinear_arith);
        }
        x = x + 1;
    }
    let r = Mat { nrows: height, ncols: width, data };
    proof {
        assert(width * height == height * width) by (nonlinear_arith);
        assert forall|y: int, x: int|
            0 <= y < r.nrows && 0 <= x < r.ncols implies #[trigger] r.at(y, x) == grad_sqr_norm(
                *m,
                y,
                x,
            ) by {
            lemma_fundamental_div_mod_converse(x * height + y, height as int, x, y);
            lemma_index_in_bounds(height as int, width as int, y, x);
        }
    }
    r
}

} // verus!
