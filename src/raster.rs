//! RGBA pixel buffers and the overlay of one onto another.

use vstd::prelude::*;

verus! {

/// One pixel: red, green, blue, alpha.
pub type Px = (u8, u8, u8, u8);

/// Opaque white, the colour of an empty canvas.
pub open spec fn white() -> Px {
    (255u8, 255u8, 255u8, 255u8)
}

/// The pixel stored at flat pixel index `j` of a buffer with four bytes a pixel.
pub open spec fn pixel_at_index(data: Seq<u8>, j: int) -> Px {
    (data[4 * j], data[4 * j + 1], data[4 * j + 2], data[4 * j + 3])
}

/// What an image is: its width, its height and its bytes.
pub type TileView = (u32, u32, Seq<u8>);

/// The pixel at column `x`, row `y` of an image.
pub open spec fn tile_px(t: TileView, x: int, y: int) -> Px {
    pixel_at_index(t.2, y * t.0 + x)
}

/// An RGBA image, one byte a channel, rows from the top, pixels of a row from the left.
pub struct RgbaImage {
    pub width: u32,
    pub height: u32,
    pub data: Vec<u8>,
}

impl View for RgbaImage {
    type V = TileView;

    open spec fn view(&self) -> TileView {
        (self.width, self.height, self.data@)
    }
}

impl RgbaImage {
    /// The buffer holds exactly four bytes for each pixel.
    pub open spec fn wf(&self) -> bool {
        self.data@.len() == 4 * (self.width as nat) * (self.height as nat)
    }

    /// The pixel at column `x`, row `y`.
    pub open spec fn px(&self, x: int, y: int) -> Px {
        tile_px(self@, x, y)
    }

    /// An image of the given size with every pixel `p`.
    pub fn from_pixel(width: u32, height: u32, p: Px) -> (r: RgbaImage)
        requires
            4 * (width as nat) * (height as nat) <= usize::MAX,
        ensures
            r.wf(),
            r.width == width,
            r.height == height,
            forall|x: int, y: int|
                0 <= x < width && 0 <= y < height ==> #[trigger] r.px(x, y) == p,
    {
        proof {
            assert(width as nat * height as nat <= usize::MAX) by (nonlinear_arith)
                requires
                    4 * (width as nat) * (height as nat) <= usize::MAX,
            ;
        }
        let count: usize = (width as usize) * (height as usize);
        assert(4 * count == 4 * (width as nat) * (height as nat)) by (nonlinear_arith)
            requires
                count == width as nat * height as nat,
        ;
        let mut data: Vec<u8> = Vec::new();
        let mut k: usize = 0;
        while k < count
            invariant
                k <= count,
                count == width as nat * height as nat,
                4 * count <= usize::MAX,
                data@.len() == 4 * k,
                forall|j: int| 0 <= j < k ==> #[trigger] pixel_at_index(data@, j) == p,
            decreases count - k,
        {
            let ghost before = data@;
            data.push(p.0);
            data.push(p.1);
            data.push(p.2);
            data.push(p.3);
            assert forall|j: int| 0 <= j < k + 1 implies #[trigger] pixel_at_index(data@, j) == p by {
                if j < k {
                    assert(pixel_at_index(before, j) == p);
                }
            }
            k = k + 1;
        }
        let r = RgbaImage { width, height, data };
        assert(r.wf());
        assert forall|x: int, y: int|
            0 <= x < width && 0 <= y < height implies #[trigger] r.px(x, y) == p by {
            lemma_index_in_bounds(x, y, width as int, height as int);
        }
        r
    }

    /// The pixel at column `x`, row `y`.
    pub fn pixel(&self, x: u32, y: u32) -> (r: Px)
        requires
            self.wf(),
            x < self.width,
            y < self.height,
        ensures
            r == self.px(x as int, y as int),
    {
        proof {
            lemma_index_in_bounds(x as int, y as int, self.width as int, self.height as int);
            assert(self.data@.len() == 4 * (self.width as int * self.height as int)) by (nonlinear_arith)
                requires
                    self.data@.len() == 4 * (self.width as nat) * (self.height as nat),
            ;
        }
        // the buffer's length is a usize, which bounds every index below
        let len: usize = self.data.len();
        assert(len == self.data@.len());
        let j: usize = (y as usize) * (self.width as usize) + (x as usize);
        (self.data[4 * j], self.data[4 * j + 1], self.data[4 * j + 2], self.data[4 * j + 3])
    }
}

/// A pixel inside a `width` by `height` image has a flat index below `width * height`.
pub proof fn lemma_index_in_bounds(x: int, y: int, width: int, height: int)
    requires
        0 <= x < width,
        0 <= y < height,
    ensures
        0 <= y * width + x < width * height,
        0 <= y * width,
{
    assert(0 <= y * width + x < width * height) by (nonlinear_arith)
        requires
            0 <= x < width,
            0 <= y < height,
    ;
    assert(0 <= y * width) by (nonlinear_arith)
        requires
            0 <= y,
            0 <= width,
    ;
}

/// What the codec's straight-alpha blend makes of pixel `top` laid over `bottom`
/// where the top alpha is neither 0 nor 255.
pub uninterp spec fn blend_of(bottom: Px, top: Px) -> Px;

/// Straight-alpha overlay of one pixel: a transparent top leaves the bottom,
/// an opaque top replaces it.
pub open spec fn blended(bottom: Px, top: Px) -> Px {
    if top.3 == 0 {
        bottom
    } else if top.3 == 255 {
        top
    } else {
        blend_of(bottom, top)
    }
}

/// Relies on image::imageops::overlay: each pixel of `top` that lands inside
/// the canvas is blended (Rgba::blend) onto the canvas pixel under it, and no other
/// canvas pixel changes.
#[verifier::external_body]
pub(crate) fn overlay_at(canvas: &mut RgbaImage, top: &RgbaImage, x: u32, y: u32)
    requires
        old(canvas).wf(),
        top.wf(),
        x + top.width <= old(canvas).width,
        y + top.height <= old(canvas).height,
    ensures
        final(canvas).wf(),
        final(canvas).width == old(canvas).width,
        final(canvas).height == old(canvas).height,
        forall|px: int, py: int|
            0 <= px < old(canvas).width && 0 <= py < old(canvas).height
                ==> #[trigger] final(canvas).px(px, py) == if x <= px < x + top.width && y <= py
                < y + top.height {
                if top.px(px - x, py - y).3 == 0 {
                    old(canvas).px(px, py)
                } else if top.px(px - x, py - y).3 == 255 {
                    top.px(px - x, py - y)
                } else {
                    blend_of(old(canvas).px(px, py), top.px(px - x, py - y))
                }
            } else {
                old(canvas).px(px, py)
            },
{
    let (w, h) = (canvas.width, canvas.height);
    let mut bottom = image::ImageBuffer::<image::Rgba<u8>, &mut [u8]>::from_raw(
        w,
        h,
        canvas.data.as_mut_slice(),
    ).unwrap();
    let upper = image::ImageBuffer::<image::Rgba<u8>, &[u8]>::from_raw(
        top.width,
        top.height,
        top.data.as_slice(),
    ).unwrap();
    image::imageops::overlay(&mut bottom, &upper, x as i64, y as i64);
}

} // verus!
