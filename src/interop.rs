//! Conversions between row-major bitmaps, as image codecs lay them out, and
//! column-major matrices.

use crate::matrix::{lemma_index_in_bounds, Mat};
use vstd::arithmetic::div_mod::lemma_fundamental_div_mod_converse;
use vstd::prelude::*;

verus! {

/// A single-channel bitmap stored row after row: the pixel at `(x, y)` is
/// `raw[y * width + x]`.
pub struct GrayBitmap<T> {
    pub width: usize,
    pub height: usize,
    pub raw: Vec<T>,
}

/// A three-channel bitmap stored row after row, channels interleaved: channel
/// `c` of the pixel at `(x, y)` is `raw[3 * (y * width + x) + c]`.
pub struct RgbBitmap<T> {
    pub width: usize,
    pub height: usize,
    pub raw: Vec<T>,
}

/// Index of the pixel at `(x, y)` in a row-major buffer of the given width.
pub open spec fn row_major_index(width: int, x: int, y: int) -> int {
    y * width + x
}

impl<T> GrayBitmap<T> {
    /// The buffer holds one value per pixel.
    pub open spec fn wf(&self) -> bool {
        self.raw@.len() == self.width * self.height
    }

    /// The pixel at `(x, y)`.
    pub open spec fn pixel(&self, x: int, y: int) -> T {
        self.raw@[row_major_index(self.width as int, x, y)]
    }
}

impl<T> RgbBitmap<T> {
    /// The buffer holds three values per pixel.
    pub open spec fn wf(&self) -> bool {
        self.raw@.len() == 3 * (self.width * self.height)
    }

    /// Channel `c` of the pixel at `(x, y)`.
    pub open spec fn channel(&self, x: int, y: int, c: int) -> T {
        self.raw@[3 * row_major_index(self.width as int, x, y) + c]
    }

    /// The pixel at `(x, y)` as a triple.
    pub open spec fn pixel(&self, x: int, y: int) -> (T, T, T) {
        (self.channel(x, y, 0), self.channel(x, y, 1), self.channel(x, y, 2))
    }
}

/// `m` is the matrix of `img`: one matrix row per bitmap row, entry `(y, x)`
/// holding the pixel at `(x, y)`.
pub open spec fn is_gray_matrix_of<T>(m: Mat<T>, img: GrayBitmap<T>) -> bool {
    &&& m.wf()
    &&& m.nrows == img.height
    &&& m.ncols == img.width
    &&& forall|y: int, x: int|
        0 <= y < m.nrows && 0 <= x < m.ncols ==> #[trigger] m.at(y, x) == img.pixel(x, y)
}

/// `m` is the matrix of triples of `img`, laid out as in `is_gray_matrix_of`.
pub open spec fn is_rgb_matrix_of<T>(m: Mat<(T, T, T)>, img: RgbBitmap<T>) -> bool {
    &&& m.wf()
    &&& m.nrows == img.height
    &&& m.ncols == img.width
    &&& forall|y: int, x: int|
        0 <= y < m.nrows && 0 <= x < m.ncols ==> #[trigger] m.at(y, x) == img.pixel(x, y)
}

/// Cell `k` of a column-major matrix with `nrows` rows sits at row
/// `k % nrows` and column `k / nrows`; and the converse.
proof fn lemma_cell(nrows: int, ncols: int, row: int, col: int)
    requires
        0 <= row < nrows,
        0 <= col < ncols,
    ensures
        (col * nrows + row) / nrows == col,
        (col * nrows + row) % nrows == row,
        0 <= col * nrows + row < nrows * ncols,
{
    lemma_fundamental_div_mod_converse(col * nrows + row, nrows, col, row);
    lemma_index_in_bounds(nrows, ncols, row, col);
}

/// Converts a gray bitmap into a matrix with one row per bitmap row:
/// entry `(y, x)` is the pixel at `(x, y)`.
pub fn matrix_from_image<T: Copy>(img: GrayBitmap<T>) -> (r: Mat<T>)
    requires
        img.wf(),
    ensures
        is_gray_matrix_of(r, img),
{
    let height = img.height;
    let width = img.width;
    let mut data: Vec<T> = Vec::new();
    let mut x: usize = 0;
    while x < width
        invariant
            img.wf(),
            height == img.height,
            width == img.width,
            x <= width,
            data@.len() == x * height,
            forall|k: int|
                0 <= k < data@.len() ==> #[trigger] data@[k] == img.pixel(k / height as int, k % height as int),
        decreases width - x,
    {
        let mut y: usize = 0;
        while y < height
            invariant
                img.wf(),
                height == img.height,
                width == img.width,
                x < width,
                y <= height,
                data@.len() == x * height + y,
                forall|k: int|
                    0 <= k < data@.len() ==> #[trigger] data@[k] == img.pixel(k / height as int, k % height as int),
            decreases height - y,
        {
            proof {
                lemma_cell(height as int, width as int, y as int, x as int);
                lemma_index_in_bounds(width as int, height as int, x as int, y as int);
                assert(img.raw@.len() == img.raw.len());
            }
            data.push(img.raw[y * width + x]);
            y = y + 1;
        }
        proof {
            assert((x + 1) * height == x * height + height) by (nonlinear_arith);
        }
        x = x + 1;
    }
    let r = Mat { nrows: height, ncols: width, data };
    proof {
        assert(width * height == height * width) by (nonlinear_arith);
        assert forall|y: int, x: int|
            0 <= y < r.nrows && 0 <= x < r.ncols implies #[trigger] r.at(y, x) == img.pixel(x, y) by {
            lemma_cell(height as int, width as int, y, x);
        }
    }
    r
}

/// Converts a matrix into a gray bitmap with one bitmap row per matrix row:
/// the pixel at `(x, y)` is entry `(y, x)`. Inverse of `matrix_from_image`.
pub fn image_from_matrix<T: Copy>(mat: &Mat<T>) -> (r: GrayBitmap<T>)
    requires
        mat.wf(),
    ensures
        r.wf(),
        r.width == mat.ncols,
        r.height == mat.nrows,
        forall|y: int, x: int|
            0 <= y < mat.nrows && 0 <= x < mat.ncols ==> #[trigger] r.pixel(x, y) == mat.at(y, x),
{
    let height = mat.nrows;
    let width = mat.ncols;
    let mut raw: Vec<T> = Vec::new();
    let mut y: usize = 0;
    while y < height
        invariant
            mat.wf(),
            height == mat.nrows,
            width == mat.ncols,
            y <= height,
            raw@.len() == y * width,
            forall|k: int|
                0 <= k < raw@.len() ==> #[trigger] raw@[k] == mat.at(k / width as int, k % width as int),
        decreases height - y,
    {
        let mut x: usize = 0;
        while x < width
            invariant
                mat.wf(),
                height == mat.nrows,
                width == mat.ncols,
                y < height,
                x <= width,
                raw@.len() == y * width + x,
                forall|k: int|
                    0 <= k < raw@.len() ==> #[trigger] raw@[k] == mat.at(k / width as int, k % width as int),
            decreases width - x,
        {
            proof {
                lemma_cell(width as int, height as int, x as int, y as int);
            }
            raw.push(*mat.get(y, x));
            x = x + 1;
        }
        proof {
            assert((y + 1) * width == y * width + width) by (nonlinear_arith);
        }
        y = y + 1;
    }
    let r = GrayBitmap { width, height, raw };
    proof {
        assert(width * height == height * width) by (nonlinear_arith);
        assert forall|y: int, x: int|
            0 <= y < mat.nrows && 0 <= x < mat.ncols implies #[trigger] r.pixel(x, y) == mat.at(y, x) by {
            lemma_cell(width as int, height as int, x, y);
        }
    }
    r
}

/// Converts an RGB bitmap into a matrix of triples with one row per bitmap
/// row: entry `(y, x)` is the pixel at `(x, y)`. Inverse of `rgb_from_matrix`.
pub fn matrix_from_rgb_image<T: Copy>(img: RgbBitmap<T>) -> (r: Mat<(T, T, T)>)
    requires
        img.wf(),
    ensures
        is_rgb_matrix_of(r, img),
{
    let height = img.height;
    let width = img.width;
    let mut data: Vec<(T, T, T)> = Vec::new();
    let mut x: usize = 0;
    while x < width
        invariant
            img.wf(),
            height == img.height,
            width == img.width,
            x <= width,
            data@.len() == x * height,
            forall|k: int|
                0 <= k < data@.len() ==> #[trigger] data@[k] == img.pixel(k / height as int, k % height as int),
        decreases width - x,
    {
        let mut y: usize = 0;
        while y < height
            invariant
                img.wf(),
                height == img.height,
                width == img.width,
                x < width,
                y <= height,
                data@.len() == x * height + y,
                forall|k: int|
                    0 <= k < data@.len() ==> #[trigger] data@[k] == img.pixel(k / height as int, k % height as int),
            decreases height - y,
        {
            proof {
                lemma_cell(height as int, width as int, y as int, x as int);
                lemma_index_in_bounds(width as int, height as int, x as int, y as int);
                assert(img.raw@.len() == img.raw.len());
            }
            let p = 3 * (y * width + x);
            data.push((img.raw[p], img.raw[p + 1], img.raw[p + 2]));
            y = y + 1;
        }
        proof {
            assert((x + 1) * height == x * height + height) by (nonlinear_arith);
        }
        x = x + 1;
    }
    let r = Mat { nrows: height, ncols: width, data };
    proof {
        assert(width * height == height * width) by (nonlinear_arith);
        assert forall|y: int, x: int|
            0 <= y < r.nrows && 0 <= x < r.ncols implies #[trigger] r.at(y, x) == img.pixel(x, y) by {
            lemma_cell(height as int, width as int, y, x);
        }
    }
    r
}

/// Converts a matrix of triples into an RGB bitmap with one bitmap row per
/// matrix row: the pixel at `(x, y)` is entry `(y, x)`.
pub fn rgb_from_matrix<T: Copy>(mat: &Mat<(T, T, T)>) -> (r: RgbBitmap<T>)
    requires
        mat.wf(),
    ensures
        r.wf(),
        r.width == mat.ncols,
        r.height == mat.nrows,
        forall|y: int, x: int|
            0 <= y < mat.nrows && 0 <= x < mat.ncols ==> #[trigger] r.pixel(x, y) == mat.at(y, x),
{
    let height = mat.nrows;
    let width = mat.ncols;
    let mut raw: Vec<T> = Vec::new();
    let mut y: usize = 0;
    while y < height
        invariant
            mat.wf(),
            height == mat.nrows,
            width == mat.ncols,
            y <= height,
            raw@.len() == 3 * (y * width),
            forall|k: int, c: int|
                0 <= k < y * width && 0 <= c < 3 ==> #[trigger] raw@[3 * k + c] == rgb_component(
                    mat.at(k / width as int, k % width as int),
                    c,
                ),
        decreases height - y,
    {
        let mut x: usize = 0;
        while x < width
            invariant
                mat.wf(),
                height == mat.nrows,
                width == mat.ncols,
                y < height,
                x <= width,
                raw@.len() == 3 * (y * width + x),
                forall|k: int, c: int|
                    0 <= k < y * width + x && 0 <= c < 3 ==> #[trigger] raw@[3 * k + c]
                        == rgb_component(mat.at(k / width as int, k % width as int), c),
            decreases width - x,
        {
            proof {
                lemma_cell(width as int, height as int, x as int, y as int);
            }
            let (cr, cg, cb) = *mat.get(y, x);
            raw.push(cr);
            raw.push(cg);
            raw.push(cb);
            x = x + 1;
        }
        proof {
            assert((y + 1) * width == y * width + width) by (nonlinear_arith);
        }
        y = y + 1;
    }
    let r = RgbBitmap { width, height, raw };
    proof {
        assert(width * height == height * width) by (nonlinear_arith);
        assert forall|y: int, x: int|
            0 <= y < mat.nrows && 0 <= x < mat.ncols implies #[trigger] r.pixel(x, y) == mat.at(y, x) by {
            lemma_cell(width as int, height as int, x, y);
            let k = y * width + x;
            assert(r.raw@[3 * k + 0] == rgb_component(mat.at(y, x), 0));
            assert(r.raw@[3 * k + 1] == rgb_component(mat.at(y, x), 1));
            assert(r.raw@[3 * k + 2] == rgb_component(mat.at(y, x), 2));
        }
    }
    r
}

/// Component `c` (0, 1 or 2) of a triple.
pub open spec fn rgb_component<T>(p: (T, T, T), c: int) -> T {
    if c == 0 {
        p.0
    } else if c == 1 {
        p.1
    } else {
        p.2
    }
}

/// Builds a gray bitmap that reads the matrix storage as it lies, without
/// reordering: the result is the transposed image, `width` is the number of
/// rows and `height` the number of columns of the matrix.
pub fn image_from_matrix_transposed(mat: &Mat<u8>) -> (r: GrayBitmap<u8>)
    requires
        mat.wf(),
    ensures
        r.wf(),
        r.width == mat.nrows,
        r.height == mat.ncols,
        r.raw@ == mat.data@,
        forall|y: int, x: int|
            0 <= y < mat.nrows && 0 <= x < mat.ncols ==> #[trigger] r.pixel(y, x) == mat.at(y, x),
{
    let mut raw: Vec<u8> = Vec::new();
    let mut k: usize = 0;
    while k < mat.data.len()
        invariant
            k <= mat.data@.len(),
            raw@ == mat.data@.subrange(0, k as int),
        decreases mat.data@.len() - k,
    {
        raw.push(mat.data[k]);
        k = k + 1;
    }
    assert(raw@ == mat.data@);
    GrayBitmap { width: mat.nrows, height: mat.ncols, raw }
}

/// The green channel of an RGB bitmap as a matrix with one row per bitmap
/// row: entry `(y, x)` is the green value of the pixel at `(x, y)`.
pub fn green_mat_from_rgb_image<T: Copy>(img: RgbBitmap<T>) -> (r: Mat<T>)
    requires
        img.wf(),
    ensures
        r.wf(),
        r.nrows == img.height,
        r.ncols == img.width,
        forall|y: int, x: int|
            0 <= y < r.nrows && 0 <= x < r.ncols ==> #[trigger] r.at(y, x) == img.channel(x, y, 1),
{
    let height = img.height;
    let width = img.width;
    let mut data: Vec<T> = Vec::new();
    let mut x: usize = 0;
    while x < width
        invariant
            img.wf(),
            height == img.height,
            width == img.width,
            x <= width,
            data@.len() == x * height,
            forall|k: int|
                0 <= k < data@.len() ==> #[trigger] data@[k] == img.channel(k / height as int, k % height as int, 1),
        decreases width - x,
    {
        let mut y: usize = 0;
        while y < height
            invariant
                img.wf(),
                height == img.height,
                width == img.width,
                x < width,
                y <= height,
                data@.len() == x * height + y,
                forall|k: int|
                    0 <= k < data@.len() ==> #[trigger] data@[k] == img.channel(k / height as int, k % height as int, 1),
            decreases height - y,
        {
            proof {
                lemma_cell(height as int, width as int, y as int, x as int);
                lemma_index_in_bounds(width as int, height as int, x as int, y as int);
                assert(img.raw@.len() == img.raw.len());
            }
            data.push(img.raw[3 * (y * width + x) + 1]);
            y = y + 1;
        }
        proof {
            assert((x + 1) * height == x * height + height) by (nonlinear_arith);
        }
        x = x + 1;
    }
    let r = Mat { nrows: height, ncols: width, data };
    proof {
        assert(width * height == height * width) by (nonlinear_arith);
        assert forall|y: int, x: int|
            0 <= y < r.nrows && 0 <= x < r.ncols implies #[trigger] r.at(y, x) == img.channel(x, y, 1) by {
            lemma_cell(height as int, width as int, y, x);
        }
    }
    r
}

} // verus!
