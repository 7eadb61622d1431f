use vstd::prelude::*;

verus! {

/// One pixel: red, green and blue, eight bits each.
pub type Rgb = (u8, u8, u8);

/// An RGB image of eight bits a channel, held in the buffer of the `image` crate.
///
/// The verifier does not look inside. What it knows of an image are its two
/// dimensions and its pixels, through [`image_width`], [`image_height`] and
/// [`image_pixels`], and of those only what the private functions below
/// state of the calls they make. None of that is proved here.
#[verifier::external_body]
pub struct RgbImage {
    buffer: image::RgbImage,
}

/// The number of pixels in a row of `img`.
pub uninterp spec fn image_width(img: RgbImage) -> nat;

/// The number of rows of `img`.
pub uninterp spec fn image_height(img: RgbImage) -> nat;

/// The pixels of `img`, each under its column and its row, the top row being row 0.
pub uninterp spec fn image_pixels(img: RgbImage) -> Map<(int, int), Rgb>;

/// `image::ImageBuffer::new`: an image of the given dimensions with every
/// channel of every pixel at zero. The outside function panics where three
/// bytes a pixel exceed what a vector can hold, which `requires` leaves out.
#[verifier::external_body]
fn buffer_new(width: u32, height: u32) -> (img: RgbImage)
    requires
        3 * width * height <= isize::MAX,
    ensures
        image_width(img) == width,
        image_height(img) == height,
        forall|x: int, y: int|
            0 <= x < width && 0 <= y < height ==> #[trigger] image_pixels(img)[(x, y)] == (
                0u8,
                0u8,
                0u8,
            ),
{
    RgbImage { buffer: image::RgbImage::new(width, height) }
}

/// `image::ImageBuffer::dimensions`: the width and the height, in this order.
#[verifier::external_body]
fn buffer_dimensions(img: &RgbImage) -> (dims: (u32, u32))
    ensures
        dims.0 == image_width(*img),
        dims.1 == image_height(*img),
{
    img.buffer.dimensions()
}

/// `image::ImageBuffer::get_pixel`: the pixel in column `x` of row `y`. The
/// outside function panics outside the image, which `requires` leaves out.
#[verifier::external_body]
fn buffer_get_pixel(img: &RgbImage, x: u32, y: u32) -> (pixel: Rgb)
    requires
        x < image_width(*img),
        y < image_height(*img),
    ensures
        pixel == image_pixels(*img)[(x as int, y as int)],
{
    let p = img.buffer.get_pixel(x, y);
    (p.0[0], p.0[1], p.0[2])
}

/// `image::ImageBuffer::put_pixel`: overwrites the pixel in column `x` of row
/// `y` and nothing else. The outside function panics outside the image, which
/// `requires` leaves out.
#[verifier::external_body]
fn buffer_put_pixel(img: &mut RgbImage, x: u32, y: u32, pixel: Rgb)
    requires
        x < image_width(*old(img)),
        y < image_height(*old(img)),
    ensures
        image_width(*final(img)) == image_width(*old(img)),
        image_height(*final(img)) == image_height(*old(img)),
        image_pixels(*final(img)) == image_pixels(*old(img)).insert((x as int, y as int), pixel),
{
    img.buffer.put_pixel(x, y, image::Rgb([pixel.0, pixel.1, pixel.2]))
}

/// `image::imageops::flip_vertical`: a new image of the same dimensions in
/// which each row holds what the row as far from the other edge held.
#[verifier::external_body]
fn buffer_flip_vertical(img: &RgbImage) -> (flipped: RgbImage)
    ensures
        image_width(flipped) == image_width(*img),
        image_height(flipped) == image_height(*img),
        forall|x: int, y: int|
            0 <= x < image_width(*img) && 0 <= y < image_height(*img) ==> #[trigger] image_pixels(
                flipped,
            )[(x, y)] == image_pixels(*img)[(x, image_height(*img) - 1 - y)],
{
    RgbImage { buffer: image::imageops::flip_vertical(&img.buffer) }
}

impl RgbImage {
    /// The pixel in column `x` of row `y`.
    pub open spec fn pixel(&self, x: int, y: int) -> Rgb {
        image_pixels(*self)[(x, y)]
    }

    /// The pixels of row `y`, from the left.
    pub open spec fn row(&self, y: int) -> Seq<Rgb> {
        Seq::new(image_width(*self), |x: int| self.pixel(x, y))
    }

    /// The rows of the image, from the top.
    pub open spec fn view(&self) -> Seq<Seq<Rgb>> {
        Seq::new(image_height(*self), |y: int| self.row(y))
    }

    /// Whether an image of these dimensions fits a buffer.
    pub open spec fn fits(width: int, height: int) -> bool {
        3 * width * height <= isize::MAX
    }

    /// Whether an image of these dimensions fits a buffer.
    pub fn can_hold(width: u32, height: u32) -> (yes: bool)
        ensures
            yes == Self::fits(width as int, height as int),
    {
        assert(0 <= 3 * width * height <= 3 * 0xffff_ffff * 0xffff_ffff) by (nonlinear_arith)
            requires
                0 <= width <= 0xffff_ffff,
                0 <= height <= 0xffff_ffff,
        ;
        let bytes: u128 = 3 * (width as u128) * (height as u128);
        bytes <= isize::MAX as u128
    }

    /// A black image of the given dimensions.
    pub fn new(width: u32, height: u32) -> (img: RgbImage)
        requires
            Self::fits(width as int, height as int),
        ensures
            image_width(img) == width,
            image_height(img) == height,
            forall|x: int, y: int|
                0 <= x < width && 0 <= y < height ==> #[trigger] img.pixel(x, y) == (0u8, 0u8, 0u8),
    {
        buffer_new(width, height)
    }

    /// The number of pixels in a row.
    pub fn width(&self) -> (w: u32)
        ensures
            w == image_width(*self),
    {
        buffer_dimensions(self).0
    }

    /// The number of rows.
    pub fn height(&self) -> (h: u32)
        ensures
            h == image_height(*self),
    {
        buffer_dimensions(self).1
    }

    /// The pixel in column `x` of row `y`.
    pub fn get_pixel(&self, x: u32, y: u32) -> (pixel: Rgb)
        requires
            x < image_width(*self),
            y < image_height(*self),
        ensures
            pixel == self.pixel(x as int, y as int),
    {
        buffer_get_pixel(self, x, y)
    }

    /// Overwrites the pixel in column `x` of row `y`.
    pub fn put_pixel(&mut self, x: u32, y: u32, pixel: Rgb)
        requires
            x < image_width(*old(self)),
            y < image_height(*old(self)),
        ensures
            image_width(*final(self)) == image_width(*old(self)),
            image_height(*final(self)) == image_height(*old(self)),
            final(self).pixel(x as int, y as int) == pixel,
            forall|i: int, j: int|
                (i, j) != (x as int, y as int) ==> #[trigger] final(self).pixel(i, j) == old(
                    self,
                ).pixel(i, j),
    {
        buffer_put_pixel(self, x, y, pixel)
    }

    /// The image upside down: its rows in the opposite order.
    pub fn flipv(&self) -> (flipped: RgbImage)
        ensures
            image_width(flipped) == image_width(*self),
            image_height(flipped) == image_height(*self),
            forall|y: int|
                0 <= y < image_height(*self) ==> #[trigger] flipped.row(y) == self.row(
                    image_height(*self) - 1 - y,
                ),
    {
        let flipped = buffer_flip_vertical(self);
        proof {
            assert forall|y: int| 0 <= y < image_height(*self) implies #[trigger] flipped.row(y)
                == self.row(image_height(*self) - 1 - y) by {
                assert(flipped.row(y) =~= self.row(image_height(*self) - 1 - y));
            }
        }
        flipped
    }
}

} // verus!
