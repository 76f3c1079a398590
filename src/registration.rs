//! Preparation of an image stack for multi-resolution registration: input
//! validation, pyramids and gradient norms regrouped level by level.

use crate::error::RegistrationError;
use crate::gradients::{is_sqr_norm_of, squared_norm_direct};
use crate::matrix::Mat;
use crate::pixel::Pixel;
use crate::pyramid::{is_half_of, mean_pyramid};
use crate::utils::transpose;
use vstd::prelude::*;

verus! {

/// All images are well formed and share the shape of the first one.
pub open spec fn uniform_stack<T>(imgs: Seq<Mat<T>>) -> bool {
    forall|i: int|
        0 <= i < imgs.len() ==> (#[trigger] imgs[i]).wf() && imgs[i].nrows == imgs[0].nrows
            && imgs[i].ncols == imgs[0].ncols
}

/// Checks that a stack can be registered and returns its common shape
/// `(nrows, ncols)`. Fails with `InvalidInput` exactly when the stack is
/// empty or its images differ in shape.
pub fn check_stack<T>(imgs: &Vec<Mat<T>>) -> (r: Result<(usize, usize), RegistrationError>)
    requires
        forall|i: int| 0 <= i < imgs@.len() ==> (#[trigger] imgs@[i]).wf(),
    ensures
        imgs@.len() == 0 || !uniform_stack(imgs@) ==> r == Err::<(usize, usize), _>(
            RegistrationError::InvalidInput,
        ),
        imgs@.len() > 0 && uniform_stack(imgs@) ==> r == Ok::<_, RegistrationError>(
            (imgs@[0].nrows, imgs@[0].ncols),
        ),
{
    if imgs.len() == 0 {
        return Err(RegistrationError::InvalidInput);
    }
    let (nrows, ncols) = imgs[0].shape();
    let mut i: usize = 1;
    while i < imgs.len()
        invariant
            1 <= i <= imgs@.len(),
            nrows == imgs@[0].nrows,
            ncols == imgs@[0].ncols,
            forall|j: int| 0 <= j < imgs@.len() ==> (#[trigger] imgs@[j]).wf(),
            forall|j: int|
                0 <= j < i ==> (#[trigger] imgs@[j]).nrows == nrows && imgs@[j].ncols == ncols,
        decreases imgs@.len() - i,
    {
        if imgs[i].nrows != nrows || imgs[i].ncols != ncols {
            return Err(RegistrationError::InvalidInput);
        }
        i = i + 1;
    }
    Ok((nrows, ncols))
}

/// The images of a stack and their squared gradient norms at every
/// resolution, regrouped level by level: `imgs[l][i]` is image `i` at level
/// `l`, and `gradient_sqr_norms[l][i]` its squared gradient norm.
pub struct Multires<P> {
    pub imgs: Vec<Vec<Mat<P>>>,
    pub gradient_sqr_norms: Vec<Vec<Mat<u64>>>,
}

impl<P: Pixel> Multires<P> {
    /// `self` holds `levels` levels of the pyramids of `stack`, with the
    /// gradient norm of each image at each level.
    pub open spec fn is_multires_of(&self, stack: Seq<Mat<P>>, levels: int) -> bool {
        &&& self.imgs@.len() == levels
        &&& self.gradient_sqr_norms@.len() == levels
        &&& forall|l: int|
            0 <= l < levels ==> (#[trigger] self.imgs@[l])@.len() == stack.len()
                && self.gradient_sqr_norms@[l]@.len() == stack.len()
        &&& forall|i: int| 0 <= i < stack.len() ==> self.imgs@[0]@[i] == #[trigger] stack[i]
        &&& forall|l: int, i: int|
            0 < l < levels && 0 <= i < stack.len() ==> is_half_of(
                self.imgs@[l - 1]@[i],
                #[trigger] self.imgs@[l]@[i],
            )
        &&& forall|l: int, i: int|
            0 <= l < levels && 0 <= i < stack.len() ==> is_sqr_norm_of(
                #[trigger] self.imgs@[l]@[i],
                self.gradient_sqr_norms@[l]@[i],
            )
    }
}

/// Builds the mean pyramid of every image with `levels` levels and the
/// squared gradient norm of every level, then regroups both by level.
pub fn build_multires<P: Pixel>(levels: usize, imgs: Vec<Mat<P>>) -> (r: Multires<P>)
    requires
        levels >= 1,
        imgs@.len() >= 1,
        forall|i: int| 0 <= i < imgs@.len() ==> (#[trigger] imgs@[i]).wf(),
    ensures
        r.is_multires_of(imgs@, levels as int),
{
    let n = imgs.len();
    let mut rest = imgs;
    let mut pyramids: Vec<Vec<Mat<P>>> = Vec::new();
    let mut norms: Vec<Vec<Mat<u64>>> = Vec::new();
    let mut i: usize = 0;
    while i < n
        invariant
            levels >= 1,
            n == imgs@.len(),
            forall|j: int| 0 <= j < imgs@.len() ==> (#[trigger] imgs@[j]).wf(),
            i <= n,
            rest@ == imgs@.subrange(i as int, n as int),
            pyramids@.len() == i,
            norms@.len() == i,
            forall|j: int|
                0 <= j < i ==> (#[trigger] pyramids@[j])@.len() == levels && norms@[j]@.len()
                    == levels,
            forall|j: int| 0 <= j < i ==> (#[trigger] pyramids@[j])@[0] == imgs@[j],
            forall|j: int, l: int|
                0 <= j < i && 0 < l < levels ==> is_half_of(
                    pyramids@[j]@[l - 1],
                    #[trigger] pyramids@[j]@[l],
                ),
            forall|j: int, l: int|
                0 <= j < i && 0 <= l < levels ==> is_sqr_norm_of(
                    #[trigger] pyramids@[j]@[l],
                    norms@[j]@[l],
                ),
        decreases n - i,
    {
        let im = rest.remove(0);
        assert(im == imgs@[i as int]);
        let pyramid = mean_pyramid(levels, im);
        let mut gradients: Vec<Mat<u64>> = Vec::new();
        let mut l: usize = 0;
        while l < levels
            invariant
                pyramid@.len() == levels,
                forall|ll: int| 0 <= ll < levels ==> (#[trigger] pyramid@[ll]).wf(),
                l <= levels,
                gradients@.len() == l,
                forall|ll: int|
                    0 <= ll < l ==> is_sqr_norm_of(pyramid@[ll], #[trigger] gradients@[ll]),
            decreases levels - l,
        {
            gradients.push(squared_norm_direct(&pyramid[l]));
            l = l + 1;
        }
        pyramids.push(pyramid);
        norms.push(gradients);
        i = i + 1;
    }
    assert forall|j: int| 0 <= j < n implies (#[trigger] norms@[j])@.len() == norms@[0]@.len() by {
        assert(pyramids@[j]@.len() == levels);
        assert(pyramids@[0]@.len() == levels);
    }
    let imgs_by_level = transpose(pyramids);
    let norms_by_level = transpose(norms);
    Multires { imgs: imgs_by_level, gradient_sqr_norms: norms_by_level }
}

/// Validates a stack and its pyramid depth, then builds its multi-resolution
/// data. Fails with `BadConfig` when `levels` is zero, and otherwise with
/// `InvalidInput` exactly when the stack is empty or its images differ in
/// shape.
pub fn prepare_stack<P: Pixel>(levels: usize, imgs: Vec<Mat<P>>) -> (r: Result<
    Multires<P>,
    RegistrationError,
>)
    requires
        forall|i: int| 0 <= i < imgs@.len() ==> (#[trigger] imgs@[i]).wf(),
    ensures
        levels == 0 ==> (r matches Err(e) && e == RegistrationError::BadConfig),
        levels > 0 && (imgs@.len() == 0 || !uniform_stack(imgs@)) ==> (r matches Err(e) && e
            == RegistrationError::InvalidInput),
        levels > 0 && imgs@.len() > 0 && uniform_stack(imgs@) ==> (r matches Ok(m)
            && m.is_multires_of(imgs@, levels as int)),
{
    if levels == 0 {
        return Err(RegistrationError::BadConfig);
    }
    match check_stack(&imgs) {
        Err(e) => Err(e),
        Ok(_) => Ok(build_multires(levels, imgs)),
    }
}

} // verus!
