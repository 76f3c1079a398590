//! Loading an image stack: which files are accepted, and how decoded images
//! of one pixel type are gathered into a dataset.

use crate::error::RegistrationError;
use crate::interop::{
    is_gray_matrix_of, is_rgb_matrix_of, matrix_from_image, matrix_from_rgb_image, GrayBitmap,
    RgbBitmap,
};
use crate::matrix::{green_channel, is_green_of, Mat};
use vstd::prelude::*;

verus! {

/// What `str::to_lowercase` makes of a string.
pub uninterp spec fn lower_of(s: Seq<char>) -> Seq<char>;

/// Relies on `str::to_lowercase`: its result depends on the characters of
/// its argument alone.
#[verifier::external_body]
fn lowercase(s: &str) -> (r: String)
    ensures
        r@ == lower_of(s@),
{
    s.to_lowercase()
}

/// The two kinds of image files a stack may be made of.
#[derive(Debug, Clone, Copy, PartialEq, Eq, Structural)]
pub enum FileKind {
    /// Camera raw files (`nef`).
    Raw,
    /// Encoded bitmaps (`png`, `jpg`, `jpeg`).
    Image,
}

/// The kind of file that a lowercase extension denotes, if any.
pub open spec fn kind_of_lowercase(e: Seq<char>) -> Option<FileKind> {
    if e == "nef"@ {
        Some(FileKind::Raw)
    } else if e == "png"@ || e == "jpg"@ || e == "jpeg"@ {
        Some(FileKind::Image)
    } else {
        None
    }
}

/// `a` and `b` hold the same characters.
fn same_chars(a: &str, b: &str) -> (r: bool)
    ensures
        r == (a@ == b@),
{
    let n = a.unicode_len();
    if n != b.unicode_len() {
        return false;
    }
    let mut i: usize = 0;
    while i < n
        invariant
            n == a@.len(),
            n == b@.len(),
            i <= n,
            forall|j: int| 0 <= j < i ==> a@[j] == b@[j],
        decreases n - i,
    {
        if a.get_char(i) != b.get_char(i) {
            return false;
        }
        i = i + 1;
    }
    assert(a@ == b@);
    true
}

/// The kind of file that an extension already in lowercase denotes.
pub fn kind_of_lowercase_extension(e: &str) -> (r: Option<FileKind>)
    ensures
        r == kind_of_lowercase(e@),
{
    if same_chars(e, "nef") {
        Some(FileKind::Raw)
    } else if same_chars(e, "png") || same_chars(e, "jpg") || same_chars(e, "jpeg") {
        Some(FileKind::Image)
    } else {
        None
    }
}

/// The kind of file that an extension denotes, whatever its case. A missing
/// or unknown extension is `InvalidInput`.
pub fn file_kind(ext: Option<&str>) -> (r: Result<FileKind, RegistrationError>)
    ensures
        ext is None ==> r == Err::<FileKind, _>(RegistrationError::InvalidInput),
        ext matches Some(e) ==> r == match kind_of_lowercase(lower_of(e@)) {
            Some(k) => Ok::<_, RegistrationError>(k),
            None => Err(RegistrationError::InvalidInput),
        },
{
    match ext {
        None => Err(RegistrationError::InvalidInput),
        Some(e) => {
            let lower = lowercase(e);
            match kind_of_lowercase_extension(lower.as_str()) {
                Some(k) => Ok(k),
                None => Err(RegistrationError::InvalidInput),
            }
        },
    }
}

/// The common kind of all files of a stack. An empty stack, or one that
/// mixes kinds, is `InvalidInput`.
pub fn dataset_kind(kinds: &Vec<FileKind>) -> (r: Result<FileKind, RegistrationError>)
    ensures
        kinds@.len() == 0 ==> r == Err::<FileKind, _>(RegistrationError::InvalidInput),
        kinds@.len() > 0 && (forall|i: int| 0 <= i < kinds@.len() ==> #[trigger] kinds@[i] == kinds@[0])
            ==> r == Ok::<_, RegistrationError>(kinds@[0]),
        kinds@.len() > 0 && (exists|i: int| 0 <= i < kinds@.len() && #[trigger] kinds@[i] != kinds@[0])
            ==> r == Err::<FileKind, _>(RegistrationError::InvalidInput),
{
    if kinds.len() == 0 {
        return Err(RegistrationError::InvalidInput);
    }
    let first = kinds[0];
    let mut i: usize = 1;
    while i < kinds.len()
        invariant
            1 <= i <= kinds@.len(),
            first == kinds@[0],
            forall|j: int| 0 <= j < i ==> #[trigger] kinds@[j] == first,
        decreases kinds@.len() - i,
    {
        if kinds[i] != first {
            return Err(RegistrationError::InvalidInput);
        }
        i = i + 1;
    }
    Ok(first)
}

/// A decoded image as a codec hands it over. Formats the registration does
/// not take are only named.
pub enum DecodedImage {
    Luma8(GrayBitmap<u8>),
    Luma16(GrayBitmap<u16>),
    Rgb8(RgbBitmap<u8>),
    Rgb16(RgbBitmap<u16>),
    /// Blue-green-red channel order, with or without alpha.
    Bgr,
    /// A gray or color format with an alpha channel.
    WithAlpha,
    /// Any other format.
    Other,
}

impl DecodedImage {
    /// The bitmap it carries is well formed.
    pub open spec fn wf(&self) -> bool {
        match *self {
            DecodedImage::Luma8(b) => b.wf(),
            DecodedImage::Luma16(b) => b.wf(),
            DecodedImage::Rgb8(b) => b.wf(),
            DecodedImage::Rgb16(b) => b.wf(),
            _ => true,
        }
    }
}

/// Why an image was not added to a dataset.
#[derive(Debug, Clone, Copy, PartialEq, Eq, Structural)]
pub enum LoadError {
    /// Blue-green-red channel order is not supported.
    BgrOrder,
    /// Alpha channels are not supported.
    AlphaChannel,
    /// The image's pixel type differs from the dataset's, or is unknown.
    MixedTypes,
}

/// The images loaded so far, all of one pixel type.
pub enum Dataset {
    Empty,
    GrayImages(Vec<Mat<u8>>),
    GrayImagesU16(Vec<Mat<u16>>),
    RgbImages(Vec<Mat<(u8, u8, u8)>>),
    RgbImagesU16(Vec<Mat<(u16, u16, u16)>>),
}

/// Every matrix of `v` is well formed.
pub open spec fn all_wf<T>(v: Seq<Mat<T>>) -> bool {
    forall|i: int| 0 <= i < v.len() ==> (#[trigger] v[i]).wf()
}

impl Dataset {
    /// Every image held is well formed.
    pub open spec fn wf(&self) -> bool {
        match *self {
            Dataset::Empty => true,
            Dataset::GrayImages(v) => all_wf(v@),
            Dataset::GrayImagesU16(v) => all_wf(v@),
            Dataset::RgbImages(v) => all_wf(v@),
            Dataset::RgbImagesU16(v) => all_wf(v@),
        }
    }

    /// The single-channel stack that registration works on: gray images as
    /// they are, and the green channel of color images.
    pub fn into_gray(self) -> (r: GrayStack)
        requires
            self.wf(),
        ensures
            self is Empty ==> r is Empty,
            self matches Dataset::GrayImages(v) ==> r == GrayStack::U8(v),
            self matches Dataset::GrayImagesU16(v) ==> r == GrayStack::U16(v),
            self matches Dataset::RgbImages(v) ==> (r matches GrayStack::U8(g) && greens(v@, g@)),
            self matches Dataset::RgbImagesU16(v) ==> (r matches GrayStack::U16(g) && greens(
                v@,
                g@,
            )),
    {
        match self {
            Dataset::Empty => GrayStack::Empty,
            Dataset::GrayImages(v) => GrayStack::U8(v),
            Dataset::GrayImagesU16(v) => GrayStack::U16(v),
            Dataset::RgbImages(v) => GrayStack::U8(green_channels(&v)),
            Dataset::RgbImagesU16(v) => GrayStack::U16(green_channels(&v)),
        }
    }

    /// Number of images held.
    pub open spec fn count(&self) -> nat {
        match *self {
            Dataset::Empty => 0,
            Dataset::GrayImages(v) => v@.len(),
            Dataset::GrayImagesU16(v) => v@.len(),
            Dataset::RgbImages(v) => v@.len(),
            Dataset::RgbImagesU16(v) => v@.len(),
        }
    }
}

/// A stack of single-channel images of one pixel type.
pub enum GrayStack {
    Empty,
    U8(Vec<Mat<u8>>),
    U16(Vec<Mat<u16>>),
}

/// `g` holds the green channel of each image of `v`.
pub open spec fn greens<T>(v: Seq<Mat<(T, T, T)>>, g: Seq<Mat<T>>) -> bool {
    g.len() == v.len() && forall|i: int| 0 <= i < v.len() ==> is_green_of(v[i], #[trigger] g[i])
}

/// The green channel of each image of `v`.
fn green_channels<T: Copy>(v: &Vec<Mat<(T, T, T)>>) -> (r: Vec<Mat<T>>)
    requires
        all_wf(v@),
    ensures
        greens(v@, r@),
{
    let mut r: Vec<Mat<T>> = Vec::new();
    let mut i: usize = 0;
    while i < v.len()
        invariant
            all_wf(v@),
            i <= v@.len(),
            r@.len() == i,
            forall|j: int| 0 <= j < i ==> is_green_of(v@[j], #[trigger] r@[j]),
        decreases v@.len() - i,
    {
        r.push(green_channel(&v[i]));
        i = i + 1;
    }
    r
}

/// Whether `img` can join `ds`, and if not, why.
pub open spec fn load_result(ds: Dataset, img: DecodedImage) -> Result<(), LoadError> {
    match (img, ds) {
        (DecodedImage::Bgr, _) => Err(LoadError::BgrOrder),
        (DecodedImage::WithAlpha, _) => Err(LoadError::AlphaChannel),
        (DecodedImage::Luma8(_), Dataset::Empty) => Ok(()),
        (DecodedImage::Luma8(_), Dataset::GrayImages(_)) => Ok(()),
        (DecodedImage::Luma16(_), Dataset::Empty) => Ok(()),
        (DecodedImage::Luma16(_), Dataset::GrayImagesU16(_)) => Ok(()),
        (DecodedImage::Rgb8(_), Dataset::Empty) => Ok(()),
        (DecodedImage::Rgb8(_), Dataset::RgbImages(_)) => Ok(()),
        (DecodedImage::Rgb16(_), Dataset::Empty) => Ok(()),
        (DecodedImage::Rgb16(_), Dataset::RgbImagesU16(_)) => Ok(()),
        _ => Err(LoadError::MixedTypes),
    }
}

/// `new` is `old`, which is empty or `prev`, with one more image at the end.
pub open spec fn appended<T>(old_is_empty: bool, prev: Seq<T>, new: Seq<T>) -> bool {
    if old_is_empty {
        new.len() == 1
    } else {
        new.len() == prev.len() + 1 && new.subrange(0, prev.len() as int) == prev
    }
}

/// `new` is `old` with the matrix of `img` added at the end.
pub open spec fn loaded_into(old: Dataset, new: Dataset, img: DecodedImage) -> bool {
    let prev_empty = old is Empty;
    match (img, new) {
        (DecodedImage::Luma8(b), Dataset::GrayImages(v)) => is_gray_matrix_of(v@.last(), b)
            && appended(
            prev_empty,
            match old {
                Dataset::GrayImages(p) => p@,
                _ => Seq::empty(),
            },
            v@,
        ),
        (DecodedImage::Luma16(b), Dataset::GrayImagesU16(v)) => is_gray_matrix_of(v@.last(), b)
            && appended(
            prev_empty,
            match old {
                Dataset::GrayImagesU16(p) => p@,
                _ => Seq::empty(),
            },
            v@,
        ),
        (DecodedImage::Rgb8(b), Dataset::RgbImages(v)) => is_rgb_matrix_of(v@.last(), b)
            && appended(
            prev_empty,
            match old {
                Dataset::RgbImages(p) => p@,
                _ => Seq::empty(),
            },
            v@,
        ),
        (DecodedImage::Rgb16(b), Dataset::RgbImagesU16(v)) => is_rgb_matrix_of(v@.last(), b)
            && appended(
            prev_empty,
            match old {
                Dataset::RgbImagesU16(p) => p@,
                _ => Seq::empty(),
            },
            v@,
        ),
        _ => false,
    }
}

/// A stack of images being loaded one at a time, with the identifier of
/// each.
pub struct Lowrr {
    pub image_ids: Vec<String>,
    pub dataset: Dataset,
}

impl Lowrr {
    /// A loader with no image.
    pub fn init() -> (r: Lowrr)
        ensures
            r.image_ids@.len() == 0,
            r.dataset is Empty,
    {
        Lowrr { image_ids: Vec::new(), dataset: Dataset::Empty }
    }

    /// Adds a decoded image under identifier `id`. The first image fixes the
    /// pixel type of the dataset; later ones must share it. Images with
    /// blue-green-red order or an alpha channel are refused. On refusal
    /// nothing changes.
    pub fn load(&mut self, id: String, img: DecodedImage) -> (r: Result<(), LoadError>)
        requires
            img.wf(),
        ensures
            r == load_result(old(self).dataset, img),
            r is Err ==> *final(self) == *old(self),
            r is Ok ==> loaded_into(old(self).dataset, final(self).dataset, img),
            old(self).dataset.wf() ==> final(self).dataset.wf(),
            r is Ok ==> final(self).image_ids@ == if old(self).dataset is Empty {
                seq![id]
            } else {
                old(self).image_ids@.push(id)
            },
    {
        let mut ds = Dataset::Empty;
        std::mem::swap(&mut ds, &mut self.dataset);
        let ghost prev = ds;
        let was_empty = match ds {
            Dataset::Empty => true,
            _ => false,
        };
        let outcome: Result<Dataset, (Dataset, LoadError)> = match img {
            DecodedImage::Bgr => Err((ds, LoadError::BgrOrder)),
            DecodedImage::WithAlpha => Err((ds, LoadError::AlphaChannel)),
            DecodedImage::Luma8(b) => match ds {
                Dataset::Empty => {
                    let v = vec![matrix_from_image(b)];
                    assert(v@.last() == v@[0]);
                    Ok(Dataset::GrayImages(v))
                },
                Dataset::GrayImages(mut v) => {
                    let ghost pv = v@;
                    v.push(matrix_from_image(b));
                    assert(v@.subrange(0, pv.len() as int) =~= pv);
                    Ok(Dataset::GrayImages(v))
                },
                other => Err((other, LoadError::MixedTypes)),
            },
            DecodedImage::Luma16(b) => match ds {
                Dataset::Empty => {
                    let v = vec![matrix_from_image(b)];
                    assert(v@.last() == v@[0]);
                    Ok(Dataset::GrayImagesU16(v))
                },
                Dataset::GrayImagesU16(mut v) => {
                    let ghost pv = v@;
                    v.push(matrix_from_image(b));
                    assert(v@.subrange(0, pv.len() as int) =~= pv);
                    Ok(Dataset::GrayImagesU16(v))
                },
                other => Err((other, LoadError::MixedTypes)),
            },
            DecodedImage::Rgb8(b) => match ds {
                Dataset::Empty => {
                    let v = vec![matrix_from_rgb_image(b)];
                    assert(v@.last() == v@[0]);
                    Ok(Dataset::RgbImages(v))
                },
                Dataset::RgbImages(mut v) => {
                    let ghost pv = v@;
                    v.push(matrix_from_rgb_image(b));
                    assert(v@.subrange(0, pv.len() as int) =~= pv);
                    Ok(Dataset::RgbImages(v))
                },
                other => Err((other, LoadError::MixedTypes)),
            },
            DecodedImage::Rgb16(b) => match ds {
                Dataset::Empty => {
                    let v = vec![matrix_from_rgb_image(b)];
                    assert(v@.last() == v@[0]);
                    Ok(Dataset::RgbImagesU16(v))
                },
                Dataset::RgbImagesU16(mut v) => {
                    let ghost pv = v@;
                    v.push(matrix_from_rgb_image(b));
                    assert(v@.subrange(0, pv.len() as int) =~= pv);
                    Ok(Dataset::RgbImagesU16(v))
                },
                other => Err((other, LoadError::MixedTypes)),
            },
            DecodedImage::Other => Err((ds, LoadError::MixedTypes)),
        };
        match outcome {
            Ok(new_ds) => {
                self.dataset = new_ds;
                if was_empty {
                    self.image_ids = vec![id];
                } else {
                    self.image_ids.push(id);
                }
                Ok(())
            },
            Err((old_ds, e)) => {
                self.dataset = old_ds;
                Err(e)
            },
        }
    }

    /// The identifiers of the loaded images, in loading order.
    pub fn image_ids(&self) -> (r: Vec<String>)
        ensures
            r@ == self.image_ids@,
    {
        let mut r: Vec<String> = Vec::new();
        let mut i: usize = 0;
        while i < self.image_ids.len()
            invariant
                i <= self.image_ids@.len(),
                r@ == self.image_ids@.subrange(0, i as int),
            decreases self.image_ids@.len() - i,
        {
            r.push(self.image_ids[i].clone());
            i = i + 1;
        }
        assert(r@ == self.image_ids@);
        r
    }
}

} // verus!
