//! Multi-resolution mean pyramids.

use crate::matrix::{lemma_index_in_bounds, Mat};
use crate::pixel::Pixel;
use vstd::arithmetic::div_mod::{lemma_div_denominator, lemma_fundamental_div_mod_converse};
use vstd::arithmetic::power2::{lemma_pow2_pos, lemma_pow2_unfold, pow2};
use vstd::prelude::*;

verus! {

/// Mean of the 2×2 block of `m` whose top-left entry is `(2y, 2x)`, rounded
/// down.
pub open spec fn block_mean<P: Pixel>(m: Mat<P>, y: int, x: int) -> nat {
    (m.at(2 * y, 2 * x).value() + m.at(2 * y + 1, 2 * x).value() + m.at(2 * y, 2 * x + 1).value()
        + m.at(2 * y + 1, 2 * x + 1).value()) / 4
}

/// `h` is `m` at half resolution: each entry is the mean of a disjoint 2×2
/// block of `m`, and an odd last row or column of `m` is dropped.
pub open spec fn is_half_of<P: Pixel>(m: Mat<P>, h: Mat<P>) -> bool {
    &&& h.wf()
    &&& h.nrows == m.nrows / 2
    &&& h.ncols == m.ncols / 2
    &&& forall|y: int, x: int|
        0 <= y < h.nrows && 0 <= x < h.ncols ==> (#[trigger] h.at(y, x)).value() == block_mean(
            m,
            y,
            x,
        )
}

/// Averages disjoint 2×2 blocks of `m`, rounding down.
pub fn halve<P: Pixel>(m: &Mat<P>) -> (r: Mat<P>)
    requires
        m.wf(),
    ensures
        is_half_of(*m, r),
{
    let height = m.nrows / 2;
    let width = m.ncols / 2;
    let mut data: Vec<P> = Vec::new();
    let mut x: usize = 0;
    while x < width
        invariant
            m.wf(),
            height == m.nrows / 2,
            width == m.ncols / 2,
            x <= width,
            data@.len() == x * height,
            forall|k: int|
                0 <= k < data@.len() ==> (#[trigger] data@[k]).value() == block_mean(
                    *m,
                    k % height as int,
                    k / height as int,
                ),
        decreases width - x,
    {
        let mut y: usize = 0;
        while y < height
            invariant
                m.wf(),
                height == m.nrows / 2,
                width == m.ncols / 2,
                x < width,
                y <= height,
                data@.len() == x * height + y,
                forall|k: int|
                    0 <= k < data@.len() ==> (#[trigger] data@[k]).value() == block_mean(
                        *m,
                        k % height as int,
                        k / height as int,
                    ),
            decreases height - y,
        {
            let a = m.get(2 * y, 2 * x).to_u32();
            let b = m.get(2 * y + 1, 2 * x).to_u32();
            let c = m.get(2 * y, 2 * x + 1).to_u32();
            let d = m.get(2 * y + 1, 2 * x + 1).to_u32();
            proof {
                P::lemma_range(m.at(2 * y, 2 * x));
                P::lemma_range(m.at(2 * y + 1, 2 * x));
                P::lemma_range(m.at(2 * y, 2 * x + 1));
                P::lemma_range(m.at(2 * y + 1, 2 * x + 1));
                lemma_fundamental_div_mod_converse(x * height + y, height as int, x as int, y as int);
            }
            data.push(P::from_u32((a + b + c + d) / 4));
            y = y + 1;
        }
        proof {
            assert((x + 1) * height == x * height + height) by (nonlinear_arith);
        }
        x = x + 1;
    }
    let r = Mat { nrows: height, ncols: width, data };
    proof {
        assert(width * height == height * width) by (nonlinear_arith);
        assert forall|y: int, x: int|
            0 <= y < r.nrows && 0 <= x < r.ncols implies (#[trigger] r.at(y, x)).value()
            == block_mean(*m, y, x) by {
            lemma_fundamental_div_mod_converse(x * height + y, height as int, x, y);
            lemma_index_in_bounds(height as int, width as int, y, x);
        }
    }
    r
}

/// Halving `n` then dividing by `2^l` is dividing by `2^(l + 1)`.
proof fn lemma_halve_dim(n: nat, l: nat)
    ensures
        (n / pow2(l)) / 2 == n / pow2(l + 1),
        pow2(l) > 0,
{
    lemma_pow2_pos(l);
    lemma_pow2_unfold(l + 1);
    lemma_div_denominator(n as int, pow2(l) as int, 2);
    assert(pow2(l) * 2 == 2 * pow2(l)) by (nonlinear_arith);
}

/// The mean pyramid of `img` with `levels` levels: level 0 is `img` and each
/// further level is the previous one at half resolution. Level `l` of an
/// `H`×`W` image is `⌊H / 2^l⌋`×`⌊W / 2^l⌋`.
pub fn mean_pyramid<P: Pixel>(levels: usize, img: Mat<P>) -> (r: Vec<Mat<P>>)
    requires
        levels >= 1,
        img.wf(),
    ensures
        r@.len() == levels,
        r@[0] == img,
        forall|l: int| 0 < l < levels ==> is_half_of(r@[l - 1], #[trigger] r@[l]),
        forall|l: int|
            0 <= l < levels ==> {
                &&& (#[trigger] r@[l]).wf()
                &&& r@[l].nrows == img.nrows as nat / pow2(l as nat)
                &&& r@[l].ncols == img.ncols as nat / pow2(l as nat)
            },
{
    let ghost h = img.nrows;
    let ghost w = img.ncols;
    let mut r: Vec<Mat<P>> = Vec::new();
    proof {
        lemma_halve_dim(h as nat, 0);
        vstd::arithmetic::power2::lemma2_to64();
        assert(h as nat / pow2(0) == h);
        assert(w as nat / pow2(0) == w);
    }
    r.push(img);
    while r.len() < levels
        invariant
            1 <= r@.len() <= levels,
            r@[0] == img,
            h == img.nrows,
            w == img.ncols,
            forall|l: int| 0 < l < r@.len() ==> is_half_of(r@[l - 1], #[trigger] r@[l]),
            forall|l: int|
                0 <= l < r@.len() ==> {
                    &&& (#[trigger] r@[l]).wf()
                    &&& r@[l].nrows == h as nat / pow2(l as nat)
                    &&& r@[l].ncols == w as nat / pow2(l as nat)
                },
        decreases levels - r@.len(),
    {
        let n = r.len();
        let next = halve(&r[n - 1]);
        proof {
            lemma_halve_dim(h as nat, (n - 1) as nat);
            lemma_halve_dim(w as nat, (n - 1) as nat);
        }
        r.push(next);
    }
    r
}

} // verus!
