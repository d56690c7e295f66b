//! Pixel storage: the zero-fillable cell matrix, the borrowed RGB24 image
//! view, and the cached triangle-filter scaler.

use vstd::prelude::*;
use vstd::slice::slice_index_get;
use rgb::FromSlice;

verus! {

/// A cell type whose all-zero value is valid, so a freshly grown matrix can be
/// filled with it.
pub trait Zeroed: Sized + Copy {
    /// The all-zero value.
    spec fn zero_spec() -> Self;

    /// Builds the all-zero value.
    fn zeroed() -> (r: Self)
        ensures
            r == Self::zero_spec(),
    ;
}

/// One RGB pixel, eight bits per channel.
#[derive(Clone, Copy, PartialEq, Eq, Structural, Debug)]
pub struct Px {
    pub r: u8,
    pub g: u8,
    pub b: u8,
}

impl Zeroed for Px {
    open spec fn zero_spec() -> Self {
        Px { r: 0, g: 0, b: 0 }
    }

    fn zeroed() -> (r: Self) {
        let p = Px { r: 0, g: 0, b: 0 };
        proof {
            assert(p == Self::zero_spec());
        }
        p
    }
}

/// Resizable two-dimensional array of cells, stored row-major; growth
/// zero-fills.
pub struct PodMatrix<T: Zeroed> {
    size: (u16, u16),
    cells: Vec<T>,
}

impl<T: Zeroed> PodMatrix<T> {
    /// Cell grid width.
    pub closed spec fn spec_width(&self) -> int {
        self.size.0 as int
    }

    /// Cell grid height.
    pub closed spec fn spec_height(&self) -> int {
        self.size.1 as int
    }

    /// The cells, row-major: the cell at `(i, j)` is entry `j * width + i`.
    pub closed spec fn cells_seq(&self) -> Seq<T> {
        self.cells@
    }

    /// The matrix holds exactly one cell per grid position, and its
    /// dimensions are 16-bit values.
    pub open spec fn well_formed(&self) -> bool {
        &&& self.cells_seq().len() == self.spec_width() * self.spec_height()
        &&& 0 <= self.spec_width() <= 65535
        &&& 0 <= self.spec_height() <= 65535
    }

    /// The cell at column `i`, row `j`.
    pub open spec fn cell_at(&self, i: int, j: int) -> T {
        self.cells_seq()[j * self.spec_width() + i]
    }

    /// An empty matrix of size 0 x 0.
    pub fn new() -> (r: Self)
        ensures
            r.well_formed(),
            r.spec_width() == 0,
            r.spec_height() == 0,
    {
        Self { size: (0, 0), cells: Vec::new() }
    }

    /// Discards the contents and makes the matrix `size.0 x size.1`, all cells
    /// zero.
    pub fn resize(&mut self, size: (u16, u16))
        ensures
            final(self).well_formed(),
            final(self).spec_width() == size.0 as int,
            final(self).spec_height() == size.1 as int,
            forall|k: int|
                0 <= k < final(self).cells_seq().len() ==> final(self).cells_seq()[k]
                    == T::zero_spec(),
    {
        proof {
            assert((size.0 as int) * (size.1 as int) <= 65535 * 65535) by (nonlinear_arith)
                requires
                    size.0 <= 65535,
                    size.1 <= 65535,
            ;
        }
        let n: usize = (size.0 as usize) * (size.1 as usize);
        self.cells.clear();
        let mut k: usize = 0;
        while k < n
            invariant
                self.cells@.len() == k,
                k <= n,
                forall|m: int| 0 <= m < k ==> self.cells@[m] == T::zero_spec(),
            decreases n - k,
        {
            self.cells.push(T::zeroed());
            k = k + 1;
        }
        self.size = size;
    }

    /// Reads the cell at column `i`, row `j`.
    pub fn get(&self, i: u16, j: u16) -> (r: T)
        requires
            self.well_formed(),
            i < self.spec_width(),
            j < self.spec_height(),
        ensures
            r == self.cell_at(i as int, j as int),
    {
        proof {
            lemma_row_major_index_in_range(
                self.spec_width(),
                self.spec_height(),
                i as int,
                j as int,
            );
            assert(self.spec_width() * self.spec_height() <= 65535 * 65535) by (nonlinear_arith)
                requires
                    self.spec_width() <= 65535,
                    self.spec_height() <= 65535,
            ;
        }
        let idx: usize = (j as usize) * (self.size.0 as usize) + (i as usize);
        *slice_index_get(self.cells.as_slice(), idx)
    }

    /// Writes the cell at column `i`, row `j`.
    pub fn set(&mut self, i: u16, j: u16, v: T)
        requires
            old(self).well_formed(),
            i < old(self).spec_width(),
            j < old(self).spec_height(),
        ensures
            final(self).well_formed(),
            final(self).spec_width() == old(self).spec_width(),
            final(self).spec_height() == old(self).spec_height(),
            final(self).cells_seq() == old(self).cells_seq().update(
                (j as int) * old(self).spec_width() + (i as int),
                v,
            ),
    {
        proof {
            lemma_row_major_index_in_range(
                self.spec_width(),
                self.spec_height(),
                i as int,
                j as int,
            );
            assert(self.spec_width() * self.spec_height() <= 65535 * 65535) by (nonlinear_arith)
                requires
                    self.spec_width() <= 65535,
                    self.spec_height() <= 65535,
            ;
        }
        let idx: usize = (j as usize) * (self.size.0 as usize) + (i as usize);
        self.cells.set(idx, v);
    }

    /// Grid width in cells.
    pub fn width(&self) -> (r: u16)
        ensures
            r as int == self.spec_width(),
    {
        self.size.0
    }

    /// Grid height in cells.
    pub fn height(&self) -> (r: u16)
        ensures
            r as int == self.spec_height(),
    {
        self.size.1
    }

    /// Grid dimensions in cells.
    pub fn size(&self) -> (r: (u16, u16))
        ensures
            r.0 as int == self.spec_width(),
            r.1 as int == self.spec_height(),
    {
        self.size
    }
}

/// A row-major position lies inside the cell vector.
proof fn lemma_row_major_index_in_range(w: int, h: int, i: int, j: int)
    requires
        0 <= i < w,
        0 <= j < h,
    ensures
        0 <= j * w + i < w * h,
{
    assert(j * w + i <= (h - 1) * w + (w - 1) && (h - 1) * w + (w - 1) < w * h) by (nonlinear_arith)
        requires
            0 <= i < w,
            0 <= j < h,
    ;
}

/// The pixel at column `i`, row `j` of a packed RGB24 byte buffer of width `w`.
pub open spec fn px_at(bytes: Seq<u8>, w: int, i: int, j: int) -> Px {
    Px {
        r: bytes[3 * (j * w + i)],
        g: bytes[3 * (j * w + i) + 1],
        b: bytes[3 * (j * w + i) + 2],
    }
}

/// Non-owning view over a packed RGB24 pixel buffer with its dimensions.
#[derive(Clone, Copy)]
pub struct ImageRef<'a> {
    size: (u32, u32),
    pixels: &'a [u8],
}

impl<'a> ImageRef<'a> {
    /// Image width in pixels.
    pub closed spec fn spec_width(&self) -> int {
        self.size.0 as int
    }

    /// Image height in pixels.
    pub closed spec fn spec_height(&self) -> int {
        self.size.1 as int
    }

    /// The backing bytes, three per pixel, row-major.
    pub closed spec fn bytes(&self) -> Seq<u8> {
        self.pixels@
    }

    /// The buffer holds exactly three bytes per pixel, and the dimensions are
    /// 32-bit values.
    pub open spec fn well_formed(&self) -> bool {
        &&& self.bytes().len() == 3 * self.spec_width() * self.spec_height()
        &&& 0 <= self.spec_width() <= 0xffff_ffff
        &&& 0 <= self.spec_height() <= 0xffff_ffff
    }

    /// The image with no pixels and size 0 x 0.
    pub fn empty() -> (r: ImageRef<'a>)
        ensures
            r.well_formed(),
            r.spec_width() == 0,
            r.spec_height() == 0,
            r.bytes().len() == 0,
    {
        let pixels: &'a [u8] = &[];
        ImageRef { size: (0, 0), pixels }
    }

    /// Wraps `buffer` as a `width x height` image. Returns the view exactly
    /// when the buffer holds three bytes for each of the `width * height`
    /// pixels; otherwise `None`.
    pub fn from_buffer(width: u32, height: u32, buffer: &'a [u8]) -> (r: Option<Self>)
        ensures
            r is Some <==> buffer@.len() == 3 * (width as int) * (height as int),
            r matches Some(img) ==> {
                &&& img.well_formed()
                &&& img.spec_width() == width as int
                &&& img.spec_height() == height as int
                &&& img.bytes() == buffer@
            },
    {
        proof {
            assert((3 * (width as int)) * (height as int) <= 3 * 0xffff_ffff * 0xffff_ffff)
                by (nonlinear_arith)
                requires
                    width <= 0xffff_ffff,
                    height <= 0xffff_ffff,
            ;
        }
        let expected: u128 = 3u128 * (width as u128) * (height as u128);
        if (buffer.len() as u128) == expected {
            Some(Self { size: (width, height), pixels: buffer })
        } else {
            None
        }
    }

    /// Image dimensions in pixels.
    pub fn size(&self) -> (r: (u32, u32))
        ensures
            r.0 as int == self.spec_width(),
            r.1 as int == self.spec_height(),
    {
        self.size
    }

    /// The length of the backing buffer in bytes.
    pub fn byte_len(&self) -> (r: usize)
        ensures
            r == self.bytes().len(),
    {
        self.pixels.len()
    }

    /// The dimensions, when the image has at least one pixel; `None` for an
    /// image with an empty buffer.
    pub fn as_non_zero_size(&self) -> (r: Option<(u32, u32)>)
        requires
            self.well_formed(),
        ensures
            r is Some <==> self.bytes().len() > 0,
            r matches Some(s) ==> {
                &&& s.0 as int == self.spec_width()
                &&& s.1 as int == self.spec_height()
                &&& s.0 >= 1
                &&& s.1 >= 1
            },
    {
        if self.pixels.len() == 0 {
            None
        } else {
            proof {
                assert(self.spec_width() >= 1 && self.spec_height() >= 1) by (nonlinear_arith)
                    requires
                        3 * self.spec_width() * self.spec_height() > 0,
                        self.spec_width() >= 0,
                        self.spec_height() >= 0,
                ;
            }
            Some((self.size.0, self.size.1))
        }
    }

    /// Reads the pixel at column `i`, row `j`. The position must lie inside
    /// the image.
    pub fn get_pixel_unchecked(&self, i: u32, j: u32) -> (r: Px)
        requires
            self.well_formed(),
            i < self.spec_width(),
            j < self.spec_height(),
        ensures
            r == px_at(self.bytes(), self.spec_width(), i as int, j as int),
    {
        let w: u64 = self.size.0 as u64;
        let len: usize = self.pixels.len();
        proof {
            lemma_row_major_index_in_range(
                self.spec_width(),
                self.spec_height(),
                i as int,
                j as int,
            );
            assert((j as int) * (w as int) <= 0xffff_fffe * 0xffff_ffff) by (nonlinear_arith)
                requires
                    j as int <= 0xffff_fffe,
                    0 <= w as int <= 0xffff_ffff,
            ;
            assert(3 * ((j as int) * (w as int) + (i as int)) + 2 < 3 * self.spec_width()
                * self.spec_height()) by (nonlinear_arith)
                requires
                    0 <= (j as int) * (w as int) + (i as int) < self.spec_width()
                        * self.spec_height(),
                    w as int == self.spec_width(),
            ;
        }
        let base: u64 = 3u64 * ((j as u64) * w + (i as u64));
        let r: u8 = *slice_index_get(self.pixels, base as usize);
        let g: u8 = *slice_index_get(self.pixels, (base + 1) as usize);
        let b: u8 = *slice_index_get(self.pixels, (base + 2) as usize);
        Px { r, g, b }
    }
}


/// Carries the reusable scaler of the resize crate over packed 8-bit RGB
/// pixels. The box is opaque to Verus: declaring the scaler's type directly is
/// refused here, as its name collides with this crate's own `Resizer`.
#[verifier::external_body]
pub struct ScalerBox {
    inner: resize::Resizer<resize::formats::Rgb<u8, u8>>,
}

/// The dimensions a scaler was built for: source width and height, then
/// destination width and height, in pixels.
pub uninterp spec fn scaler_dims(r: ScalerBox) -> (int, int, int, int);

/// The packed RGB24 bytes the triangle filter produces when scaling `src`, a
/// `src_w x src_h` image, down or up to `dst_w x dst_h`. The result depends on
/// the source pixels and the four dimensions alone.
pub uninterp spec fn scaled_of(
    src: Seq<u8>,
    src_w: int,
    src_h: int,
    dst_w: int,
    dst_h: int,
) -> Seq<u8>;

/// Relies on resize::new with the RGB8 format and the triangle filter: with
/// all four dimensions nonzero it returns a scaler built for exactly those
/// dimensions, and fails only on allocation failure, which is treated as an
/// abort here just as vstd treats allocation in Vec.
#[verifier::external_body]
pub(crate) fn make_inner_resizer(
    src_width: usize,
    src_height: usize,
    dst_width: u16,
    dst_height: u16,
) -> (r: ScalerBox)
    requires
        src_width >= 1,
        src_height >= 1,
        dst_width >= 1,
        dst_height >= 1,
    ensures
        scaler_dims(r) == (src_width as int, src_height as int, dst_width as int, dst_height as int),
{
    let inner = resize::new(
        src_width,
        src_height,
        dst_width as usize,
        dst_height as usize,
        resize::Pixel::RGB8,
        resize::Type::Triangle,
    ).unwrap();
    ScalerBox { inner }
}

/// Relies on resize::Resizer::resize: when the source slice holds exactly the
/// source pixel count and the destination exactly the destination pixel count
/// the scaler was built for, it overwrites the destination with the scaled
/// pixels and returns Ok, failing only on allocation failure (treated as an
/// abort, as in vstd's allocation specifications). Scratch state inside the
/// scaler changes; the dimensions it was built for do not.
#[verifier::external_body]
fn run_scaler(scaler: &mut ScalerBox, src: &[u8], dst: &mut Vec<u8>)
    requires
        scaler_dims(*old(scaler)).0 >= 1,
        scaler_dims(*old(scaler)).1 >= 1,
        scaler_dims(*old(scaler)).2 >= 1,
        scaler_dims(*old(scaler)).3 >= 1,
        src@.len() == 3 * scaler_dims(*old(scaler)).0 * scaler_dims(*old(scaler)).1,
        old(dst)@.len() == 3 * scaler_dims(*old(scaler)).2 * scaler_dims(*old(scaler)).3,
    ensures
        scaler_dims(*final(scaler)) == scaler_dims(*old(scaler)),
        final(dst)@.len() == old(dst)@.len(),
        final(dst)@ == scaled_of(
            src@,
            scaler_dims(*old(scaler)).0,
            scaler_dims(*old(scaler)).1,
            scaler_dims(*old(scaler)).2,
            scaler_dims(*old(scaler)).3,
        ),
{
    let res = scaler.inner.resize(src.as_rgb(), dst.as_mut_slice().as_rgb_mut());
    res.unwrap();
}

/// A vector of `n` zero bytes.
fn zeroed_vec(n: usize) -> (r: Vec<u8>)
    ensures
        r@.len() == n,
        forall|k: int| 0 <= k < n ==> r@[k] == 0u8,
{
    let mut v: Vec<u8> = Vec::new();
    let mut k: usize = 0;
    while k < n
        invariant
            v@.len() == k,
            k <= n,
            forall|m: int| 0 <= m < k ==> v@[m] == 0u8,
        decreases n - k,
    {
        v.push(0u8);
        k = k + 1;
    }
    v
}

/// What scaling leaves in hand: an image already of the target size comes
/// back as it is, an image with no pixels gives a zeroed target-size buffer,
/// a target with a zero axis gives no bytes, and otherwise the triangle
/// filter decides.
pub open spec fn resized_bytes(src: Seq<u8>, src_w: int, src_h: int, dst_w: int, dst_h: int) -> Seq<
    u8,
> {
    if src_w == dst_w && src_h == dst_h {
        src
    } else if src.len() == 0 {
        Seq::new((3 * dst_w * dst_h) as nat, |k: int| 0u8)
    } else if dst_w == 0 || dst_h == 0 {
        Seq::empty()
    } else {
        scaled_of(src, src_w, src_h, dst_w, dst_h)
    }
}

/// A scaler cached together with the source dimensions it was built for.
struct ScalerCache {
    last_src_dimensions: (u32, u32),
    scaler: ScalerBox,
}

/// Caches a lazily built triangle-filter scaler plus a destination pixel
/// buffer; both are rebuilt when the source or destination dimensions change.
pub struct Resizer {
    buffer_size: (u16, u16),
    image_buffer: Vec<u8>,
    resizing_buffer: Option<ScalerCache>,
}

impl Resizer {
    /// The destination buffer holds three bytes per destination pixel, and a
    /// cached scaler always targets the current destination buffer.
    pub closed spec fn well_formed(&self) -> bool {
        &&& self.image_buffer@.len() == 3 * (self.buffer_size.0 as int) * (self.buffer_size.1
            as int)
        &&& match self.resizing_buffer {
            Option::Some(c) => {
                &&& scaler_dims(c.scaler) == (
                    c.last_src_dimensions.0 as int,
                    c.last_src_dimensions.1 as int,
                    self.buffer_size.0 as int,
                    self.buffer_size.1 as int,
                )
                &&& c.last_src_dimensions.0 >= 1
                &&& c.last_src_dimensions.1 >= 1
                &&& self.buffer_size.0 >= 1
                &&& self.buffer_size.1 >= 1
            },
            Option::None => true,
        }
    }

    /// A resizer with an empty destination buffer and no scaler yet.
    pub fn new() -> (r: Self)
        ensures
            r.well_formed(),
    {
        Self { buffer_size: (0, 0), image_buffer: Vec::new(), resizing_buffer: None }
    }

    /// The destination buffer as an image.
    fn buffer_image<'a>(&'a self) -> (r: ImageRef<'a>)
        requires
            self.well_formed(),
        ensures
            r.well_formed(),
            r.spec_width() == self.buffer_size.0 as int,
            r.spec_height() == self.buffer_size.1 as int,
            r.bytes() == self.image_buffer@,
    {
        ImageRef {
            size: (self.buffer_size.0 as u32, self.buffer_size.1 as u32),
            pixels: self.image_buffer.as_slice(),
        }
    }

    /// Scales `image` to `resize_to` pixels with the triangle filter.
    ///
    /// An image already of that size comes back unchanged; an image with no
    /// pixels yields a zeroed destination of the requested size; a request
    /// with a zero axis yields the empty image. The result has no pixels
    /// exactly when the request has a zero axis.
    pub fn resize<'a>(&'a mut self, image: ImageRef<'a>, resize_to: (u16, u16)) -> (r: ImageRef<
        'a,
    >)
        requires
            old(self).well_formed(),
            image.well_formed(),
            3 * (resize_to.0 as int) * (resize_to.1 as int) <= usize::MAX,
        ensures
            final(self).well_formed(),
            r.well_formed(),
            image.spec_width() == resize_to.0 as int && image.spec_height() == resize_to.1 as int
                ==> r == image,
            resize_to.0 >= 1 && resize_to.1 >= 1 ==> r.spec_width() == resize_to.0 as int
                && r.spec_height() == resize_to.1 as int,
            r.bytes().len() == 0 <==> (resize_to.0 == 0 || resize_to.1 == 0),
            r.bytes() == resized_bytes(
                image.bytes(),
                image.spec_width(),
                image.spec_height(),
                resize_to.0 as int,
                resize_to.1 as int,
            ),
            !(image.spec_width() == resize_to.0 as int && image.spec_height() == resize_to.1
                as int) ==> {
                if image.bytes().len() == 0 {
                    &&& r.spec_width() == resize_to.0 as int
                    &&& r.spec_height() == resize_to.1 as int
                    &&& forall|k: int| 0 <= k < r.bytes().len() ==> r.bytes()[k] == 0u8
                } else if resize_to.0 == 0 || resize_to.1 == 0 {
                    &&& r.spec_width() == 0
                    &&& r.spec_height() == 0
                } else {
                    &&& r.spec_width() == resize_to.0 as int
                    &&& r.spec_height() == resize_to.1 as int
                    &&& r.bytes() == scaled_of(
                        image.bytes(),
                        image.spec_width(),
                        image.spec_height(),
                        resize_to.0 as int,
                        resize_to.1 as int,
                    )
                }
            },
    {
        let image_size: (u32, u32) = image.size();
        proof {
            lemma_triple_product_zero(image.spec_width(), image.spec_height());
            lemma_triple_product_zero(resize_to.0 as int, resize_to.1 as int);
        }
        if image_size.0 == resize_to.0 as u32 && image_size.1 == resize_to.1 as u32 {
            return image;
        }
        let dst_size_changed: bool = resize_to.0 != self.buffer_size.0 || resize_to.1
            != self.buffer_size.1;
        if dst_size_changed {
            let n: usize = 3usize * (resize_to.0 as usize) * (resize_to.1 as usize);
            self.image_buffer = zeroed_vec(n);
            self.buffer_size = resize_to;
            self.resizing_buffer = None;
        }
        let non_zero = image.as_non_zero_size();
        match non_zero {
            None => {
                let n: usize = self.image_buffer.len();
                self.image_buffer = zeroed_vec(n);
                proof {
                    assert(self.image_buffer@ =~= Seq::new(
                        (3 * (resize_to.0 as int) * (resize_to.1 as int)) as nat,
                        |k: int| 0u8,
                    ));
                }
                self.buffer_image()
            },
            Some((src_w, src_h)) => {
                if resize_to.0 == 0 || resize_to.1 == 0 {
                    return ImageRef::empty();
                }
                let need_rebuild: bool = match &self.resizing_buffer {
                    None => true,
                    Some(c) => c.last_src_dimensions.0 != src_w || c.last_src_dimensions.1
                        != src_h,
                };
                if need_rebuild {
                    let scaler = make_inner_resizer(
                        src_w as usize,
                        src_h as usize,
                        resize_to.0,
                        resize_to.1,
                    );
                    self.resizing_buffer = Some(
                        ScalerCache { last_src_dimensions: (src_w, src_h), scaler },
                    );
                }
                match &mut self.resizing_buffer {
                    Some(c) => {
                        run_scaler(&mut c.scaler, image.pixels, &mut self.image_buffer);
                    },
                    None => {
                        proof {
                            assert(false);
                        }
                    },
                }
                self.buffer_image()
            },
        }
    }
}

/// `3 * a * b` is zero exactly when one of the factors is.
proof fn lemma_triple_product_zero(a: int, b: int)
    requires
        a >= 0,
        b >= 0,
    ensures
        3 * a * b == 0 <==> (a == 0 || b == 0),
        3 * a * b >= 0,
{
    assert((3 * a * b == 0 <==> (a == 0 || b == 0)) && 3 * a * b >= 0) by (nonlinear_arith)
        requires
            a >= 0,
            b >= 0,
    ;
}

} // verus!
