//! Rectangular working areas.

use crate::error::RegistrationError;
use crate::matrix::{lemma_index_in_bounds, Mat};
use vstd::arithmetic::div_mod::lemma_fundamental_div_mod_converse;
use vstd::prelude::*;

verus! {

/// A rectangle of pixels: columns `x1 .. x2` and rows `y1 .. y2`, the ends
/// excluded.
#[derive(Debug, Clone, Copy, PartialEq, Eq, Structural)]
pub struct Crop {
    pub x1: usize,
    pub y1: usize,
    pub x2: usize,
    pub y2: usize,
}

impl Crop {
    /// The rectangle is not empty and not inverted.
    pub open spec fn is_proper(&self) -> bool {
        self.x1 < self.x2 && self.y1 < self.y2
    }

    /// The rectangle is proper and lies inside a `nrows` × `ncols` image.
    pub open spec fn fits(&self, nrows: int, ncols: int) -> bool {
        self.is_proper() && self.x2 <= ncols && self.y2 <= nrows
    }

    /// Builds a crop from its four bounds `[x1, y1, x2, y2]`. Fails with
    /// `BadConfig` unless exactly four values are given, and with
    /// `BadCropBounds` when the rectangle they describe is empty or inverted.
    pub fn try_from_values(values: &Vec<usize>) -> (r: Result<Crop, RegistrationError>)
        ensures
            values@.len() != 4 ==> r == Err::<Crop, _>(RegistrationError::BadConfig),
            values@.len() == 4 ==> {
                let c = Crop { x1: values@[0], y1: values@[1], x2: values@[2], y2: values@[3] };
                &&& c.is_proper() ==> r == Ok::<Crop, RegistrationError>(c)
                &&& !c.is_proper() ==> r == Err::<Crop, _>(RegistrationError::BadCropBounds)
            },
    {
        if values.len() != 4 {
            return Err(RegistrationError::BadConfig);
        }
        let c = Crop { x1: values[0], y1: values[1], x2: values[2], y2: values[3] };
        if c.x1 < c.x2 && c.y1 < c.y2 {
            Ok(c)
        } else {
            Err(RegistrationError::BadCropBounds)
        }
    }
}

/// Copies the area of `img` that `frame` covers. Entry `(y, x)` of the result
/// is entry `(y1 + y, x1 + x)` of `img`. Fails with `BadCropBounds` exactly
/// when the frame is empty, inverted, or leaves the image.
pub fn crop<T: Copy>(frame: Crop, img: &Mat<T>) -> (r: Result<Mat<T>, RegistrationError>)
    requires
        img.wf(),
    ensures
        !frame.fits(img.nrows as int, img.ncols as int) ==> r == Err::<Mat<T>, _>(
            RegistrationError::BadCropBounds,
        ),
        frame.fits(img.nrows as int, img.ncols as int) ==> r is Ok,
        r matches Ok(m) ==> is_crop_of(frame, *img, m),
{
    if !(frame.x1 < frame.x2 && frame.y1 < frame.y2 && frame.x2 <= img.ncols && frame.y2
        <= img.nrows) {
        return Err(RegistrationError::BadCropBounds);
    }
    let height = frame.y2 - frame.y1;
    let width = frame.x2 - frame.x1;
    let mut data: Vec<T> = Vec::new();
    let mut x: usize = 0;
    while x < width
        invariant
            img.wf(),
            frame.fits(img.nrows as int, img.ncols as int),
            height == frame.y2 - frame.y1,
            width == frame.x2 - frame.x1,
            x <= width,
            data@.len() == x * height,
            forall|k: int|
                0 <= k < data@.len() ==> #[trigger] data@[k] == img.at(
                    frame.y1 + k % height as int,
                    frame.x1 + k / height as int,
                ),
        decreases width - x,
    {
        let mut y: usize = 0;
        while y < height
            invariant
                img.wf(),
                frame.fits(img.nrows as int, img.ncols as int),
                height == frame.y2 - frame.y1,
                width == frame.x2 - frame.x1,
                x < width,
                y <= height,
                data@.len() == x * height + y,
                forall|k: int|
                    0 <= k < data@.len() ==> #[trigger] data@[k] == img.at(
                        frame.y1 + k % height as int,
                        frame.x1 + k / height as int,
                    ),
            decreases height - y,
        {
            proof {
                lemma_fundamental_div_mod_converse(x * height + y, height as int, x as int, y as int);
            }
            data.push(*img.get(frame.y1 + y, frame.x1 + x));
            y = y + 1;
        }
        proof {
            assert((x + 1) * height == x * height + height) by (nonlinear_arith);
        }
        x = x + 1;
    }
    let m = Mat { nrows: height, ncols: width, data };
    proof {
        assert(width * height == height * width) by (nonlinear_arith);
        assert forall|y: int, x: int|
            0 <= y < m.nrows && 0 <= x < m.ncols implies #[trigger] m.at(y, x) == img.at(
                frame.y1 + y,
                frame.x1 + x,
            ) by {
            lemma_fundamental_div_mod_converse(x * height + y, height as int, x, y);
            lemma_index_in_bounds(height as int, width as int, y, x);
        }
    }
    Ok(m)
}

/// `c` is the area that `frame` covers in `img`.
pub open spec fn is_crop_of<T>(frame: Crop, img: Mat<T>, c: Mat<T>) -> bool {
    &&& c.wf()
    &&& c.nrows == frame.y2 - frame.y1
    &&& c.ncols == frame.x2 - frame.x1
    &&& forall|y: int, x: int|
        0 <= y < c.nrows && 0 <= x < c.ncols ==> #[trigger] c.at(y, x) == img.at(
            frame.y1 + y,
            frame.x1 + x,
        )
}

/// Restricts every image of a stack to `frame`, or keeps the stack as it is
/// when there is no frame. Fails with `BadCropBounds` exactly when the frame
/// does not fit one of the images.
pub fn crop_all<T: Copy>(frame: Option<Crop>, imgs: Vec<Mat<T>>) -> (r: Result<
    Vec<Mat<T>>,
    RegistrationError,
>)
    requires
        forall|i: int| 0 <= i < imgs@.len() ==> (#[trigger] imgs@[i]).wf(),
    ensures
        frame is None ==> r == Ok::<_, RegistrationError>(imgs),
        frame matches Some(f) ==> {
            &&& (exists|i: int|
                0 <= i < imgs@.len() && !f.fits(
                    (#[trigger] imgs@[i]).nrows as int,
                    imgs@[i].ncols as int,
                )) ==> r == Err::<Vec<Mat<T>>, _>(RegistrationError::BadCropBounds)
            &&& (forall|i: int|
                0 <= i < imgs@.len() ==> f.fits(
                    (#[trigger] imgs@[i]).nrows as int,
                    imgs@[i].ncols as int,
                )) ==> (r matches Ok(v) && v@.len() == imgs@.len() && forall|i: int|
                0 <= i < imgs@.len() ==> is_crop_of(f, imgs@[i], #[trigger] v@[i]))
        },
{
    match frame {
        None => Ok(imgs),
        Some(f) => {
            let mut out: Vec<Mat<T>> = Vec::new();
            let mut i: usize = 0;
            while i < imgs.len()
                invariant
                    frame == Some(f),
                    forall|j: int| 0 <= j < imgs@.len() ==> (#[trigger] imgs@[j]).wf(),
                    i <= imgs@.len(),
                    out@.len() == i,
                    forall|j: int|
                        0 <= j < i ==> f.fits(
                            (#[trigger] imgs@[j]).nrows as int,
                            imgs@[j].ncols as int,
                        ),
                    forall|j: int| 0 <= j < i ==> is_crop_of(f, imgs@[j], #[trigger] out@[j]),
                decreases imgs@.len() - i,
            {
                match crop(f, &imgs[i]) {
                    Ok(c) => out.push(c),
                    Err(e) => {
                        assert(!f.fits(imgs@[i as int].nrows as int, imgs@[i as int].ncols as int));
                        return Err(e);
                    },
                }
                i = i + 1;
            }
            Ok(out)
        },
    }
}

} // verus!
