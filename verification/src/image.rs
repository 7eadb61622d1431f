use vstd::prelude::*;
use vstd::arithmetic::div_mod::lemma_div_pos_is_pos;

verus! {

/// What is wrong with the settings of a render.
#[derive(Clone, Copy, Debug, PartialEq, Eq, Structural)]
pub enum ConfigError {
    /// One side of the aspect ratio is zero.
    Aspect,
    /// The image has no columns.
    Width,
    /// The image has no scanlines.
    Height,
    /// There is no sample to a pixel.
    Samples,
    /// A ray may not even bounce once.
    Depth,
    /// There is no worker.
    Threads,
}

/// The shape of an image: `width` units across for `height` units down.
#[derive(Clone, Copy, Debug)]
pub struct AspectRatio {
    width: u32,
    height: u32,
}

impl AspectRatio {
    #[verifier::type_invariant]
    spec fn positive(self) -> bool {
        self.width > 0 && self.height > 0
    }

    /// Units across.
    pub closed spec fn across(self) -> int {
        self.width as int
    }

    /// Units down.
    pub closed spec fn down(self) -> int {
        self.height as int
    }

    /// The ratio `width : height`, both of which must be positive.
    pub fn new(width: u32, height: u32) -> (res: Result<AspectRatio, ConfigError>)
        ensures
            width > 0 && height > 0 <==> res is Ok,
            res matches Ok(ratio) ==> ratio.across() == width && ratio.down() == height,
            res matches Err(e) ==> e == ConfigError::Aspect,
    {
        if width > 0 && height > 0 {
            Ok(AspectRatio { width, height })
        } else {
            Err(ConfigError::Aspect)
        }
    }
}

/// The dimensions of an image to be rendered.
#[derive(Clone, Copy, Debug, PartialEq, Eq, Structural)]
pub struct Image {
    image_width: u32,
    image_height: u32,
}

/// The height of an image `image_width` pixels wide whose width is to its
/// height as `across` is to `down`: the quotient rounded down, and held at the
/// largest height there is.
pub open spec fn height_for(image_width: int, across: int, down: int) -> int {
    let height = image_width * down / across;
    if height > u32::MAX {
        u32::MAX as int
    } else {
        height
    }
}

impl Image {
    /// The number of pixels in a scanline.
    pub closed spec fn spec_width(&self) -> int {
        self.image_width as int
    }

    /// The number of scanlines.
    pub closed spec fn spec_height(&self) -> int {
        self.image_height as int
    }

    /// An image `image_width` pixels wide, its height following from the aspect ratio.
    pub fn new(aspect_ratio: AspectRatio, image_width: u32) -> (image: Image)
        ensures
            image.spec_width() == image_width,
            image.spec_height() == height_for(
                image_width as int,
                aspect_ratio.across(),
                aspect_ratio.down(),
            ),
    {
        proof {
            use_type_invariant(&aspect_ratio);
            assert(0 <= image_width * aspect_ratio.height <= 0xffff_ffff * 0xffff_ffff)
                by (nonlinear_arith)
                requires
                    0 <= image_width <= 0xffff_ffff,
                    0 <= aspect_ratio.height <= 0xffff_ffff,
            ;
            lemma_div_pos_is_pos(
                image_width * aspect_ratio.height,
                aspect_ratio.width as int,
            );
        }
        let scaled: u64 = (image_width as u64) * (aspect_ratio.height as u64);
        let height: u64 = scaled / (aspect_ratio.width as u64);
        let image_height: u32 = if height > u32::MAX as u64 {
            u32::MAX
        } else {
            height as u32
        };
        Image { image_width, image_height }
    }

    /// The number of pixels in a scanline.
    pub fn width(&self) -> (w: u32)
        ensures
            w == self.spec_width(),
    {
        self.image_width
    }

    /// The number of scanlines.
    pub fn height(&self) -> (h: u32)
        ensures
            h == self.spec_height(),
    {
        self.image_height
    }

    /// What [`Image::check`] answers.
    pub open spec fn verdict(&self, samples_per_pixel: int, max_depth: int, thread_number: int)
        -> Result<(), ConfigError> {
        if self.spec_width() == 0 {
            Err(ConfigError::Width)
        } else if self.spec_height() == 0 {
            Err(ConfigError::Height)
        } else if samples_per_pixel <= 0 {
            Err(ConfigError::Samples)
        } else if max_depth <= 0 {
            Err(ConfigError::Depth)
        } else if thread_number == 0 {
            Err(ConfigError::Threads)
        } else {
            Ok(())
        }
    }

    /// Whether the image can be rendered with these settings: every number
    /// must be positive. The first that is not is reported, in the order
    /// width, height, samples, depth, workers.
    pub fn check(&self, samples_per_pixel: i32, max_depth: i32, thread_number: usize) -> (res:
        Result<(), ConfigError>)
        ensures
            res == self.verdict(samples_per_pixel as int, max_depth as int, thread_number as int),
    {
        if self.image_width == 0 {
            Err(ConfigError::Width)
        } else if self.image_height == 0 {
            Err(ConfigError::Height)
        } else if samples_per_pixel <= 0 {
            Err(ConfigError::Samples)
        } else if max_depth <= 0 {
            Err(ConfigError::Depth)
        } else if thread_number == 0 {
            Err(ConfigError::Threads)
        } else {
            Ok(())
        }
    }
}

} // verus!
