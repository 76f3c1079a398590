//! Selection of the pixels that carry gradient information.

use crate::matrix::{lemma_index_in_bounds, Mat};
use crate::ratio::Ratio;
use vstd::arithmetic::div_mod::lemma_fundamental_div_mod_converse;
use vstd::prelude::*;

verus! {

/// All matrices of `ms` are well formed and share the shape `nrows` × `ncols`.
pub open spec fn same_shape(ms: Seq<Mat<u64>>, nrows: int, ncols: int) -> bool {
    forall|i: int|
        0 <= i < ms.len() ==> (#[trigger] ms[i]).wf() && ms[i].nrows == nrows && ms[i].ncols
            == ncols
}

/// Pixel `(y, x)` has, in at least one of the gradient norm maps, a value
/// above `threshold`; equivalently their maximum there exceeds it.
pub open spec fn is_selected(norms: Seq<Mat<u64>>, threshold: u64, y: int, x: int) -> bool {
    exists|i: int| 0 <= i < norms.len() && (#[trigger] norms[i].at(y, x)) > threshold
}

/// The mask of selected pixels: entry `(y, x)` is `true` exactly when the
/// largest gradient norm over all images at that pixel exceeds `threshold`.
pub fn select_pixels(norms: &Vec<Mat<u64>>, threshold: u64) -> (r: Mat<bool>)
    requires
        norms@.len() > 0,
        same_shape(norms@, norms@[0].nrows as int, norms@[0].ncols as int),
    ensures
        r.wf(),
        r.nrows == norms@[0].nrows,
        r.ncols == norms@[0].ncols,
        forall|y: int, x: int|
            0 <= y < r.nrows && 0 <= x < r.ncols ==> #[trigger] r.at(y, x) == is_selected(
                norms@,
                threshold,
                y,
                x,
            ),
{
    let height = norms[0].nrows;
    let width = norms[0].ncols;
    let mut data: Vec<bool> = Vec::new();
    let mut x: usize = 0;
    while x < width
        invariant
            norms@.len() > 0,
            same_shape(norms@, height as int, width as int),
            x <= width,
            data@.len() == x * height,
            forall|k: int|
                0 <= k < data@.len() ==> #[trigger] data@[k] == is_selected(
                    norms@,
                    threshold,
                    k % height as int,
                    k / height as int,
                ),
        decreases width - x,
    {
        let mut y: usize = 0;
        while y < height
            invariant
                norms@.len() > 0,
                same_shape(norms@, height as int, width as int),
                x < width,
                y <= height,
                data@.len() == x * height + y,
                forall|k: int|
                    0 <= k < data@.len() ==> #[trigger] data@[k] == is_selected(
                        norms@,
                        threshold,
                        k % height as int,
                        k / height as int,
                    ),
            decreases height - y,
        {
            let mut found = false;
            let mut i: usize = 0;
            while i < norms.len()
                invariant
                    same_shape(norms@, height as int, width as int),
                    x < width,
                    y < height,
                    i <= norms@.len(),
                    found == exists|j: int|
                        0 <= j < i && (#[trigger] norms@[j].at(y as int, x as int)) > threshold,
                decreases norms@.len() - i,
            {
                if *norms[i].get(y, x) > threshold {
                    found = true;
                }
                i = i + 1;
            }
            proof {
                lemma_fundamental_div_mod_converse(x * height + y, height as int, x as int, y as int);
            }
            data.push(found);
            y = y + 1;
        }
        proof {
            assert((x + 1) * height == x * height + height) by (nonlinear_arith);
        }
        x = x + 1;
    }
    let r = Mat { nrows: height, ncols: width, data };
    proof {
        assert(width * height == height * width) by (nonlinear_arith);
        assert forall|y: int, x: int|
            0 <= y < r.nrows && 0 <= x < r.ncols implies #[trigger] r.at(y, x) == is_selected(
                norms@,
                threshold,
                y,
                x,
            ) by {
            lemma_fundamental_div_mod_converse(x * height + y, height as int, x, y);
            lemma_index_in_bounds(height as int, width as int, y, x);
        }
    }
    r
}

/// Width of the margin left out of the Gauss-Newton sums, in percent of the
/// smaller image dimension.
pub const BORDER_PERCENT: usize = 4;

/// The margin, in pixels, of a `height` × `width` level: `BORDER_PERCENT`
/// percent of the smaller dimension, rounded down.
pub fn border_size(height: usize, width: usize) -> (r: usize)
    ensures
        r == (if height <= width { height } else { width }) * BORDER_PERCENT / 100,
{
    let m = if height <= width {
        height
    } else {
        width
    };
    m / 100 * BORDER_PERCENT + m % 100 * BORDER_PERCENT / 100
}

/// Pixel `(x, y)` of a `height` × `width` level lies strictly inside the
/// margin `border` on every side.
pub open spec fn spec_is_interior(x: int, y: int, height: int, width: int, border: int) -> bool {
    x > border && x + border < width && y > border && y + border < height
}

/// Whether pixel `(x, y)` counts in the Gauss-Newton sums of a `height` ×
/// `width` level with margin `border`.
pub fn is_interior(x: usize, y: usize, height: usize, width: usize, border: usize) -> (r: bool)
    ensures
        r == spec_is_interior(x as int, y as int, height as int, width as int, border as int),
{
    x > border && x < width && border < width - x && y > border && y < height && border < height
        - y
}

/// Whether a level with `selected` of its `total` pixels selected is solved on
/// the selected pixels only: their share `selected / total` is below
/// `threshold`. A level without pixels is solved densely.
pub fn use_sparse_resolution(selected: usize, total: usize, threshold: Ratio) -> (r: bool)
    ensures
        r == (total > 0 && selected * threshold.den < threshold.num * total),
{
    if total == 0 {
        return false;
    }
    let a = selected as u128;
    let b = threshold.den as u128;
    let c = threshold.num as u128;
    let d = total as u128;
    proof {
        assert(a * b <= 0xffff_ffff_ffff_ffff * 0xffff_ffff_ffff_ffff) by (nonlinear_arith)
            requires
                a <= 0xffff_ffff_ffff_ffff,
                b <= 0xffff_ffff_ffff_ffff,
        ;
        assert(c * d <= 0xffff_ffff_ffff_ffff * 0xffff_ffff_ffff_ffff) by (nonlinear_arith)
            requires
                c <= 0xffff_ffff_ffff_ffff,
                d <= 0xffff_ffff_ffff_ffff,
        ;
    }
    a * b < c * d
}

} // verus!
