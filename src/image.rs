use vstd::prelude::*;

verus! {

/// Largest number of pixels any decoded buffer may hold (256 megapixels).
pub const MAX_PIXEL_COUNT: u64 = 268435456;

/// Largest file the bounded reader brings into memory (512 MiB).
pub const MAX_FILE_SIZE: u64 = 536870912;

/// Shortest frame delay, in milliseconds, given to any animation frame.
pub const MIN_FRAME_DELAY_MS: u64 = 10;

/// Dimensions that a pixel buffer may take: both sides non-zero and the area
/// within the pixel ceiling.
pub open spec fn valid_dims(width: u32, height: u32) -> bool {
    width > 0 && height > 0 && width as int * height as int <= MAX_PIXEL_COUNT as int
}

/// Byte length of a `width` x `height` RGBA buffer.
pub open spec fn rgba_len(width: u32, height: u32) -> int {
    width as int * height as int * 4
}

/// Index of the first byte of pixel `(x, y)` in a row-major RGBA buffer of the given width.
pub open spec fn px_index(width: int, x: int, y: int) -> int {
    (y * width + x) * 4
}

/// Channel `c` of pixel `(x, y)` of the row-major RGBA bytes `s`, `w` pixels wide.
pub open spec fn byte_at(s: Seq<u8>, w: int, x: int, y: int, c: int) -> u8 {
    s[px_index(w, x, y) + c]
}

/// A row-major RGBA buffer, four bytes per pixel, not premultiplied.
#[derive(Clone, Debug)]
pub struct RgbaImage {
    pub data: Vec<u8>,
    pub width: u32,
    pub height: u32,
}

impl RgbaImage {
    /// The buffer holds exactly four bytes for each pixel.
    pub open spec fn wf(&self) -> bool {
        self.data@.len() == rgba_len(self.width, self.height)
    }

    /// Channel `c` of pixel `(x, y)`.
    pub open spec fn px(&self, x: int, y: int, c: int) -> u8 {
        byte_at(self.data@, self.width as int, x, y, c)
    }

    /// Same dimensions and the same bytes.
    pub open spec fn same_as(&self, other: RgbaImage) -> bool {
        self.width == other.width && self.height == other.height && self.data@ == other.data@
    }

    /// A zero-filled (transparent black) buffer of the given size.
    pub fn new(width: u32, height: u32) -> (r: Self)
        requires
            valid_dims(width, height),
        ensures
            r.wf(),
            r.width == width,
            r.height == height,
            forall|i: int| 0 <= i < r.data@.len() ==> r.data@[i] == 0u8,
    {
        proof {
            lemma_area_fits(width, height);
        }
        let size: usize = (width as usize) * (height as usize) * 4;
        let data = vec![0u8; size];
        RgbaImage { data, width, height }
    }

    /// Wraps `data` as a `width` x `height` buffer. Fails, rather than truncating
    /// or padding, when the length is not exactly four bytes per pixel or the
    /// dimensions are not valid.
    pub fn from_raw(width: u32, height: u32, data: Vec<u8>) -> (r: Option<Self>)
        ensures
            r is Some <==> (valid_dims(width, height) && data@.len() == rgba_len(width, height)),
            r matches Some(img) ==> img.wf() && img.width == width && img.height == height
                && img.data@ == data@,
    {
        if !dims_ok(width, height) {
            return None;
        }
        proof {
            lemma_area_fits(width, height);
        }
        let expected: usize = (width as usize) * (height as usize) * 4;
        if data.len() == expected {
            Some(RgbaImage { data, width, height })
        } else {
            None
        }
    }

    pub fn dimensions(&self) -> (r: (u32, u32))
        ensures
            r == (self.width, self.height),
    {
        (self.width, self.height)
    }

    pub fn as_raw(&self) -> (r: &[u8])
        ensures
            r@ == self.data@,
    {
        self.data.as_slice()
    }
}

/// The area of valid dimensions, times four, fits in `usize`.
pub proof fn lemma_area_fits(width: u32, height: u32)
    requires
        valid_dims(width, height),
    ensures
        width as int * height as int * 4 <= 4 * MAX_PIXEL_COUNT as int,
        width as int * height as int * 4 <= usize::MAX as int,
        width as int * height as int >= 1,
{
    assert(width as int * height as int >= 1) by (nonlinear_arith)
        requires width > 0, height > 0;
}

/// The product of two `u32` values fits in `u64`.
pub proof fn lemma_u32_mul_fits(a: u32, b: u32)
    ensures
        a as int * b as int <= u64::MAX as int,
        a as int * b as int >= 0,
{
    assert(a as int * b as int <= 0xffff_ffff * 0xffff_ffff) by (nonlinear_arith)
        requires a <= 0xffff_ffffu32, b <= 0xffff_ffffu32;
    assert(a as int * b as int >= 0) by (nonlinear_arith)
        requires a >= 0, b >= 0;
}

/// Executable form of [`valid_dims`].
pub fn dims_ok(width: u32, height: u32) -> (r: bool)
    ensures
        r == valid_dims(width, height),
{
    proof {
        lemma_u32_mul_fits(width, height);
    }
    let pixels: u64 = (width as u64) * (height as u64);
    width > 0 && height > 0 && pixels <= MAX_PIXEL_COUNT
}

/// One frame of an animation and how long it stays on screen, in milliseconds.
#[derive(Debug)]
pub struct Frame {
    pub image: RgbaImage,
    pub delay_ms: u64,
}

/// A decoded image: one buffer, or an animation of at least one frame.
#[derive(Debug)]
pub enum LoadedImage {
    Static(RgbaImage),
    Animated { frames: Vec<Frame> },
}

impl LoadedImage {
    /// Every buffer is well formed and an animation is never empty.
    pub open spec fn wf(&self) -> bool {
        match self {
            LoadedImage::Static(img) => img.wf(),
            LoadedImage::Animated { frames } => frames@.len() >= 1 && forall|i: int|
                0 <= i < frames@.len() ==> (#[trigger] frames@[i]).image.wf(),
        }
    }

    /// The buffer shown first.
    pub open spec fn first_spec(&self) -> RgbaImage {
        match self {
            LoadedImage::Static(img) => *img,
            LoadedImage::Animated { frames } => frames@[0].image,
        }
    }

    pub fn first_frame(&self) -> (r: &RgbaImage)
        requires
            self.wf(),
        ensures
            *r == self.first_spec(),
            r.wf(),
    {
        match self {
            LoadedImage::Static(img) => img,
            LoadedImage::Animated { frames } => &frames[0].image,
        }
    }
}

/// Result of checking declared dimensions before any pixel storage is allocated.
pub enum DimError {
    TooLarge,
    ZeroDimension,
}

/// Checks declared dimensions against the pixel ceiling `max_pixels`, then against
/// zero, in that order.
pub fn validate_dimensions(width: u32, height: u32, max_pixels: u64) -> (r: Result<(), DimError>)
    ensures
        width as int * height as int > max_pixels as int ==> r matches Err(DimError::TooLarge),
        width as int * height as int <= max_pixels as int && (width == 0 || height == 0)
            ==> r matches Err(DimError::ZeroDimension),
        r is Ok <==> (width > 0 && height > 0 && width as int * height as int <= max_pixels as int),
{
    proof {
        lemma_u32_mul_fits(width, height);
    }
    let pixels: u64 = (width as u64) * (height as u64);
    if pixels > max_pixels {
        return Err(DimError::TooLarge);
    }
    if width == 0 || height == 0 {
        return Err(DimError::ZeroDimension);
    }
    Ok(())
}

} // verus!
