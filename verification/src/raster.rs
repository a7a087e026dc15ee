//! Pixel grids, kept in the buffers of the `image` crate.
//!
//! A page raster holds an `image::RgbImage`, a marker overlay an
//! `image::RgbaImage`. The verifier sees nothing inside either, so this
//! module names what they hold and states, without proof, what the handful
//! of `image` methods that the crate calls do to it. Everything else in the
//! crate is proved from these statements.

use vstd::prelude::*;

verus! {

/// A pixel of a page raster: red, green, blue.
pub type Rgb = (u8, u8, u8);

/// A pixel of an overlay: red, green, blue, alpha.
pub type Rgba = (u8, u8, u8, u8);

/// A rendered page: an RGB pixel grid of fixed width and height, never
/// changed once made. It wraps an `image::RgbImage`.
#[verifier::external_body]
pub struct Raster {
    image: image::RgbImage,
}

/// The rows of a page raster, top to bottom, each pixel left to right.
pub uninterp spec fn raster_rows(raster: Raster) -> Seq<Seq<Rgb>>;

/// The number of pixels in every row of a page raster.
pub uninterp spec fn raster_width(raster: Raster) -> nat;

/// The sample triple that starts at `3 * (y * width + x)` in a row-major
/// buffer of RGB samples.
pub open spec fn rgb_sample(samples: Seq<u8>, width: int, x: int, y: int) -> Rgb {
    let at = 3 * (y * width + x);
    (samples[at], samples[at + 1], samples[at + 2])
}

/// `ImageBuffer::from_raw` on RGB samples. The length that the buffer
/// must have is worked out as three times the width, times the height, and
/// each of the two products has to fit in `usize`. The buffer is taken
/// when it holds at least that many samples, and refused otherwise. Pixel
/// `(x, y)` of the raster is then the three samples that start at
/// `3 * (y * width + x)`.
#[verifier::external_body]
fn raster_from_raw(width: u32, height: u32, samples: Vec<u8>) -> (made: Option<Raster>)
    ensures
        made.is_some() <==> (3 * width <= usize::MAX && 3 * width * height <= samples@.len()),
        made matches Some(raster) ==> {
            &&& raster_width(raster) == width
            &&& raster_rows(raster).len() == height
            &&& forall|y: int|
                0 <= y < height ==> (#[trigger] raster_rows(raster)[y]).len() == width
            &&& forall|x: int, y: int|
                0 <= x < width && 0 <= y < height ==> #[trigger] raster_rows(raster)[y][x]
                    == rgb_sample(samples@, width as int, x, y)
        },
{
    match image::RgbImage::from_raw(width, height, samples) {
        Some(image) => Some(Raster { image }),
        None => None,
    }
}

/// `ImageBuffer::dimensions` of a page raster: the width and the height it
/// was made with. Every row holds `width` pixels, and the samples of all
/// pixels fit in one buffer.
#[verifier::external_body]
fn raster_dimensions(raster: &Raster) -> (size: (u32, u32))
    ensures
        size.0 == raster_width(*raster),
        size.1 == raster_rows(*raster).len(),
        forall|y: int| 0 <= y < size.1 ==> (#[trigger] raster_rows(*raster)[y]).len() == size.0,
        3 * size.0 * size.1 <= usize::MAX,
{
    raster.image.dimensions()
}

/// `ImageBuffer::get_pixel` of a page raster: the pixel in column `x` of
/// row `y`.
#[verifier::external_body]
fn raster_get_pixel(raster: &Raster, x: u32, y: u32) -> (pixel: Rgb)
    requires
        x < raster_width(*raster),
        y < raster_rows(*raster).len(),
    ensures
        pixel == raster_rows(*raster)[y as int][x as int],
{
    let p = raster.image.get_pixel(x, y);
    (p.0[0], p.0[1], p.0[2])
}

impl Raster {
    /// The pixel rows, top to bottom.
    pub open spec fn rows(&self) -> Seq<Seq<Rgb>> {
        raster_rows(*self)
    }

    /// The number of pixels in a row.
    pub open spec fn spec_width(&self) -> nat {
        raster_width(*self)
    }

    /// The number of rows.
    pub open spec fn spec_height(&self) -> nat {
        raster_rows(*self).len()
    }

    /// A raster is a rectangle that fits in memory: every row has the
    /// raster's width, both sides fit in `u32`, and the samples of all
    /// pixels can be counted in `usize`.
    pub open spec fn well_formed(&self) -> bool {
        &&& self.spec_width() <= u32::MAX
        &&& self.spec_height() <= u32::MAX
        &&& 3 * self.spec_width() * self.spec_height() <= usize::MAX
        &&& forall|y: int|
            0 <= y < self.spec_height() ==> (#[trigger] self.rows()[y]).len() == self.spec_width()
    }

    /// Makes a raster of `width` by `height` pixels from RGB samples, row
    /// by row. `None` when `samples` is too short for that many pixels, or
    /// when the samples of one row cannot be counted in `usize`.
    pub fn from_samples(width: u32, height: u32, samples: Vec<u8>) -> (made: Option<Raster>)
        ensures
            made.is_some() <==> (3 * width <= usize::MAX && 3 * width * height <= samples@.len()),
            made matches Some(raster) ==> {
                &&& raster.well_formed()
                &&& raster.spec_width() == width
                &&& raster.spec_height() == height
                &&& forall|x: int, y: int|
                    0 <= x < width && 0 <= y < height ==> #[trigger] raster.rows()[y][x]
                        == rgb_sample(samples@, width as int, x, y)
            },
    {
        let len = samples.len();
        let made = raster_from_raw(width, height, samples);
        assert(made.is_some() ==> 3 * width * height <= len);
        made
    }

    /// The number of pixels in a row.
    pub fn width(&self) -> (width: u32)
        ensures
            width == self.spec_width(),
            self.well_formed(),
    {
        raster_dimensions(self).0
    }

    /// The number of rows.
    pub fn height(&self) -> (height: u32)
        ensures
            height == self.spec_height(),
            self.well_formed(),
    {
        raster_dimensions(self).1
    }

    /// The pixel in column `x` of row `y`, or `None` outside the raster.
    pub fn pixel(&self, x: u32, y: u32) -> (pixel: Option<Rgb>)
        ensures
            self.well_formed(),
            pixel.is_some() <==> x < self.spec_width() && y < self.spec_height(),
            pixel matches Some(p) ==> p == self.rows()[y as int][x as int],
    {
        let size = raster_dimensions(self);
        if x < size.0 && y < size.1 {
            Some(raster_get_pixel(self, x, y))
        } else {
            None
        }
    }

    /// Whether two rasters hold the same pixel at `(x, y)`.
    pub(crate) fn same_pixel(&self, other: &Raster, x: u32, y: u32) -> (same: bool)
        requires
            x < self.spec_width(),
            y < self.spec_height(),
            x < other.spec_width(),
            y < other.spec_height(),
        ensures
            same == (self.rows()[y as int][x as int] == other.rows()[y as int][x as int]),
    {
        let p = raster_get_pixel(self, x, y);
        let q = raster_get_pixel(other, x, y);
        p.0 == q.0 && p.1 == q.1 && p.2 == q.2
    }
}

/// A marker to lay over a page: an RGBA pixel grid. It wraps an
/// `image::RgbaImage`.
#[verifier::external_body]
pub struct Overlay {
    image: image::RgbaImage,
}

/// The rows of an overlay, top to bottom, each pixel left to right.
pub uninterp spec fn overlay_rows(overlay: Overlay) -> Seq<Seq<Rgba>>;

/// The number of pixels in every row of an overlay.
pub uninterp spec fn overlay_width(overlay: Overlay) -> nat;

/// `ImageBuffer::new` for RGBA pixels: an overlay of `width` by `height`
/// pixels, every sample of which is zero. The number of samples is worked
/// out as four times the width, times the height: the first product has to
/// fit in `usize`, and all samples in one allocation.
#[verifier::external_body]
fn overlay_new(width: u32, height: u32) -> (overlay: Overlay)
    requires
        4 * width <= usize::MAX,
        4 * width * height <= isize::MAX,
    ensures
        overlay_width(overlay) == width,
        overlay_rows(overlay).len() == height,
        forall|y: int| 0 <= y < height ==> (#[trigger] overlay_rows(overlay)[y]).len() == width,
        forall|x: int, y: int|
            0 <= x < width && 0 <= y < height ==> #[trigger] overlay_rows(overlay)[y][x] == (
                0u8,
                0u8,
                0u8,
                0u8,
            ),
{
    Overlay { image: image::RgbaImage::new(width, height) }
}

/// `ImageBuffer::dimensions` of an overlay: the width and the height it
/// was made with. Every row holds `width` pixels.
#[verifier::external_body]
fn overlay_dimensions(overlay: &Overlay) -> (size: (u32, u32))
    ensures
        size.0 == overlay_width(*overlay),
        size.1 == overlay_rows(*overlay).len(),
        forall|y: int| 0 <= y < size.1 ==> (#[trigger] overlay_rows(*overlay)[y]).len() == size.0,
{
    overlay.image.dimensions()
}

/// `ImageBuffer::get_pixel` of an overlay: the pixel in column `x` of row
/// `y`.
#[verifier::external_body]
fn overlay_get_pixel(overlay: &Overlay, x: u32, y: u32) -> (pixel: Rgba)
    requires
        x < overlay_width(*overlay),
        y < overlay_rows(*overlay).len(),
    ensures
        pixel == overlay_rows(*overlay)[y as int][x as int],
{
    let p = overlay.image.get_pixel(x, y);
    (p.0[0], p.0[1], p.0[2], p.0[3])
}

/// `ImageBuffer::put_pixel` of an overlay: the pixel in column `x` of row
/// `y` becomes `pixel`, and nothing else changes.
#[verifier::external_body]
fn overlay_put_pixel(overlay: &mut Overlay, x: u32, y: u32, pixel: Rgba)
    requires
        x < overlay_width(*old(overlay)),
        y < overlay_rows(*old(overlay)).len(),
    ensures
        overlay_width(*final(overlay)) == overlay_width(*old(overlay)),
        overlay_rows(*final(overlay)) == overlay_rows(*old(overlay)).update(
            y as int,
            overlay_rows(*old(overlay))[y as int].update(x as int, pixel),
        ),
{
    overlay.image.put_pixel(x, y, image::Rgba([pixel.0, pixel.1, pixel.2, pixel.3]));
}

impl Overlay {
    /// The pixel rows, top to bottom.
    pub open spec fn rows(&self) -> Seq<Seq<Rgba>> {
        overlay_rows(*self)
    }

    /// The number of pixels in a row.
    pub open spec fn spec_width(&self) -> nat {
        overlay_width(*self)
    }

    /// The number of rows.
    pub open spec fn spec_height(&self) -> nat {
        overlay_rows(*self).len()
    }

    /// An overlay is a rectangle: every row has the overlay's width.
    pub open spec fn well_formed(&self) -> bool {
        forall|y: int|
            0 <= y < self.spec_height() ==> (#[trigger] self.rows()[y]).len() == self.spec_width()
    }

    /// An overlay of `width` by `height` pixels, all of them transparent.
    pub fn transparent(width: u32, height: u32) -> (overlay: Overlay)
        requires
            4 * width <= usize::MAX,
            4 * width * height <= isize::MAX,
        ensures
            overlay.well_formed(),
            overlay.spec_width() == width,
            overlay.spec_height() == height,
            forall|x: int, y: int|
                0 <= x < width && 0 <= y < height ==> #[trigger] overlay.rows()[y][x] == (
                    0u8,
                    0u8,
                    0u8,
                    0u8,
                ),
    {
        overlay_new(width, height)
    }

    /// The number of pixels in a row.
    pub fn width(&self) -> (width: u32)
        ensures
            width == self.spec_width(),
            self.well_formed(),
    {
        overlay_dimensions(self).0
    }

    /// The number of rows.
    pub fn height(&self) -> (height: u32)
        ensures
            height == self.spec_height(),
            self.well_formed(),
    {
        overlay_dimensions(self).1
    }

    /// The pixel in column `x` of row `y`, or `None` outside the overlay.
    pub fn pixel(&self, x: u32, y: u32) -> (pixel: Option<Rgba>)
        ensures
            pixel.is_some() <==> x < self.spec_width() && y < self.spec_height(),
            pixel matches Some(p) ==> p == self.rows()[y as int][x as int],
    {
        let size = overlay_dimensions(self);
        if x < size.0 && y < size.1 {
            Some(overlay_get_pixel(self, x, y))
        } else {
            None
        }
    }

    /// Sets the pixel in column `x` of row `y`.
    pub(crate) fn paint(&mut self, x: u32, y: u32, pixel: Rgba)
        requires
            old(self).well_formed(),
            x < old(self).spec_width(),
            y < old(self).spec_height(),
        ensures
            final(self).well_formed(),
            final(self).spec_width() == old(self).spec_width(),
            final(self).spec_height() == old(self).spec_height(),
            final(self).rows()[y as int][x as int] == pixel,
            forall|c: int, r: int|
                0 <= r < old(self).spec_height() && 0 <= c < old(self).spec_width() && (c != x || r
                    != y) ==> #[trigger] final(self).rows()[r][c] == old(self).rows()[r][c],
    {
        overlay_put_pixel(self, x, y, pixel);
        proof {
            let before = old(self).rows();
            let after = self.rows();
            assert(after == before.update(y as int, before[y as int].update(x as int, pixel)));
            assert(before[y as int].len() == old(self).spec_width());
            assert forall|r: int| 0 <= r < self.spec_height() implies (#[trigger] after[r]).len()
                == self.spec_width() by {
                assert(before[r].len() == old(self).spec_width());
            }
        }
    }
}

} // verus!
